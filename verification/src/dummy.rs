//! A consensus scheme that accepts every header, for tests and local networks.

use vstd::prelude::*;
use crate::argon_consensus::random_in_range;
use crate::block::Block;
use crate::block::BlockHeader;
use crate::block::HeaderView;
use crate::block::BlockTemplate;
use crate::consensus::Consensus;
use crate::consensus::ConsensusError;

verus! {

/// The consensus bytes of this scheme: none.
#[derive(Clone, Copy, Debug, PartialEq, Eq)]
pub struct DummyHeader {}

impl DummyHeader {
    /// Any bytes read as this header.
    pub fn try_from(_value: Vec<u8>) -> (r: Result<DummyHeader, ConsensusError>)
        ensures
            r is Ok,
    {
        Ok(DummyHeader {  })
    }

    /// The header as bytes: the empty string.
    pub fn into(self) -> (bytes: Vec<u8>)
        ensures
            bytes@.len() == 0,
    {
        Vec::new()
    }
}

/// A block made by this scheme, and the time that making it is to take.
pub struct MinedBlock {
    pub block: Block,
    /// Seconds to wait before the block is announced.
    pub delay_secs: u64,
}

pub struct DummyConsensus {}

impl DummyConsensus {
    /// Least and first excluded number of seconds that a block takes.
    pub const MIN_DELAY_SECS: u64 = 1;

    pub const MAX_DELAY_SECS: u64 = 7;

    /// Completes `block_template` with an empty consensus header and draws
    /// the time that the block takes, at least `MIN_DELAY_SECS` and less than
    /// `MAX_DELAY_SECS` seconds.  The caller does the waiting.
    pub fn create_block(block_template: BlockTemplate) -> (mined: MinedBlock)
        ensures
            mined.block@ == block_template.block_with(Seq::<u8>::empty()),
            Self::MIN_DELAY_SECS <= mined.delay_secs < Self::MAX_DELAY_SECS,
    {
        let delay_secs = random_in_range(Self::MIN_DELAY_SECS, Self::MAX_DELAY_SECS);
        let header = DummyHeader {  };
        let bytes = header.into();
        assert(bytes@ =~= Seq::<u8>::empty());
        MinedBlock { block: block_template.into_block(bytes), delay_secs }
    }
}

impl Consensus for DummyConsensus {
    /// Every header is accepted.
    open spec fn accepts(header: HeaderView) -> bool {
        true
    }

    fn init_genesis_header() -> (bytes: Vec<u8>) {
        Vec::new()
    }

    fn verify_header(_header: &BlockHeader) -> (r: Result<(), ConsensusError>) {
        Ok(())
    }
}

} // verus!
