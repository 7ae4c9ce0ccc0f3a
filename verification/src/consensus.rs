//! The consensus capability: how a header is judged valid.

use vstd::prelude::*;
use crate::block::BlockHeader;
use crate::block::HeaderView;

verus! {

/// Why a header was refused.
#[derive(Clone, Copy, Debug, PartialEq, Eq, Structural)]
pub enum ConsensusError {
    /// The proof carried by the header does not meet its target.
    InvalidHeader,
    /// The consensus bytes of the header are too short to hold a nonce.
    MalformedNonce,
}

impl ConsensusError {
    /// A description for logs and reports.
    pub fn message(&self) -> (s: &'static str)
        ensures
            s@ == (match self {
                ConsensusError::InvalidHeader => "invalid header"@,
                ConsensusError::MalformedNonce => "malformed nonce"@,
            }),
    {
        match self {
            ConsensusError::InvalidHeader => "invalid header",
            ConsensusError::MalformedNonce => "malformed nonce",
        }
    }
}

/// A consensus scheme.  The scheme is chosen by type and holds no state.
pub trait Consensus {
    /// The headers that the scheme accepts.
    spec fn accepts(header: HeaderView) -> bool;

    /// The consensus bytes of a genesis header.
    fn init_genesis_header() -> (bytes: Vec<u8>)
        ensures
            bytes@.len() == 0,
    ;

    /// Judges a header: `Ok` exactly for the headers that the scheme accepts.
    fn verify_header(header: &BlockHeader) -> (r: Result<(), ConsensusError>)
        ensures
            r is Ok <==> Self::accepts(header@),
    ;
}

} // verus!
