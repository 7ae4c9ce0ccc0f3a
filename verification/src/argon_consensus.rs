//! Proof of work over Argon2: a header is valid when the Argon2 hash of its
//! identifier, with the nonce spliced in, is at most the header's difficulty.

use vstd::prelude::*;
use vstd::bytes::spec_u64_from_le_bytes;
use vstd::bytes::spec_u64_to_le_bytes;
use vstd::slice::slice_to_vec;
use byteorder::LittleEndian;
use byteorder::ByteOrder;
use byteorder::WriteBytesExt;
use rand::Rng;
use crate::block::BlockHeader;
use crate::block::HeaderView;
use crate::consensus::Consensus;
use crate::consensus::ConsensusError;
use crate::hash::HashValue;
use crate::hash::U256;
use crate::hash::be_value;

verus! {

/// A 256-bit hash, as the proof of work reads it.
pub type H256 = HashValue;

/// The error type of the `argon2` crate.
#[verifier::external_type_specification]
#[verifier::external_body]
pub struct ExArgon2Error(argon2::Error);

/// The raw Argon2i hash (version 1.3, one lane, 4096 KiB, three passes,
/// 32 bytes of output, no secret, no associated data) of `pwd` with `salt`.
pub uninterp spec fn argon2i_raw_hash(pwd: Seq<u8>, salt: Seq<u8>) -> Seq<u8>;

/// `argon2::hash_raw` with the crate's default configuration.
///
/// The call fails exactly when the salt is shorter than 8 bytes or either
/// input is longer than 2^32 - 1 bytes; otherwise it returns the 32-byte
/// hash, which depends on the two inputs alone.
#[verifier::external_body]
fn argon2_hash_raw(pwd: &[u8], salt: &[u8]) -> (result: Result<Vec<u8>, argon2::Error>)
    ensures
        result is Ok <==> (8 <= salt@.len() <= 0xFFFF_FFFF && pwd@.len() <= 0xFFFF_FFFF),
        result is Ok ==> result->Ok_0@ == argon2i_raw_hash(pwd@, salt@),
        result is Ok ==> result->Ok_0@.len() == 32,
{
    argon2::hash_raw(pwd, salt, &argon2::Config::default())
}

/// `byteorder::WriteBytesExt::write_u64::<LittleEndian>` on a vector:
/// appends the eight bytes of `n`, least significant first.
#[verifier::external_body]
fn append_u64_le(buf: &mut Vec<u8>, n: u64)
    ensures
        final(buf)@ == old(buf)@ + spec_u64_to_le_bytes(n),
{
    let _ = buf.write_u64::<LittleEndian>(n);
}

/// `byteorder::LittleEndian::read_u64`: the number whose little-endian
/// bytes are the first eight of `buf`.  Shorter input makes the call panic.
#[verifier::external_body]
fn read_u64_le(buf: &[u8]) -> (n: u64)
    requires
        buf@.len() >= 8,
    ensures
        n == spec_u64_from_le_bytes(buf@.take(8)),
{
    LittleEndian::read_u64(buf)
}

/// `rand::Rng::gen_range` on the thread's generator: some number in
/// `low..high`.  An empty range makes the call panic.
#[verifier::external_body]
pub(crate) fn random_in_range(low: u64, high: u64) -> (n: u64)
    requires
        low < high,
    ensures
        low <= n < high,
{
    rand::thread_rng().gen_range(low, high)
}

/// The eight little-endian bytes of `u`.
pub fn u64_to_vec(u: u64) -> (bytes: Vec<u8>)
    ensures
        bytes@ == spec_u64_to_le_bytes(u),
{
    let mut wtr: Vec<u8> = Vec::new();
    append_u64_le(&mut wtr, u);
    assert(wtr@ =~= spec_u64_to_le_bytes(u));
    wtr
}

/// The number whose little-endian bytes are the first eight of `v`.
pub fn vec_to_u64(v: Vec<u8>) -> (n: u64)
    requires
        v@.len() >= 8,
    ensures
        n == spec_u64_from_le_bytes(v@.take(8)),
{
    read_u64_le(v.as_slice())
}

/// `header` with its last eight bytes replaced by the little-endian `nonce`.
pub open spec fn pow_input(header: Seq<u8>, nonce: u64) -> Seq<u8> {
    header.take(header.len() - 8) + spec_u64_to_le_bytes(nonce)
}

/// Replaces the last eight bytes of `header` by the little-endian `nonce`.
pub fn set_header_nonce(header: &[u8], nonce: u64) -> (out: Vec<u8>)
    requires
        header@.len() >= 8,
    ensures
        out@ == pow_input(header@, nonce),
{
    let len = header.len();
    let mut out = slice_to_vec(header);
    out.truncate(len - 8);
    assert(out@ =~= header@.take(len - 8));
    append_u64_le(&mut out, nonce);
    out
}

/// The Argon2 hash of `header`, used as password and as salt.
pub fn calculate_hash(header: &[u8]) -> (hash: H256)
    requires
        8 <= header@.len() <= 0xFFFF_FFFF,
    ensures
        hash.bytes@ == argon2i_raw_hash(header@, header@),
{
    match argon2_hash_raw(header, header) {
        Ok(output) => {
            match HashValue::from_slice(output.as_slice()) {
                Some(hash) => hash,
                None => vstd::pervasive::unreached(),
            }
        },
        Err(_) => vstd::pervasive::unreached(),
    }
}

/// Whether a proof-of-work hash, read as a big-endian number, is at most
/// `difficulty`.
pub fn meets_target(pow_hash: &H256, difficulty: &U256) -> (r: bool)
    ensures
        r == (pow_hash.value() <= difficulty.value()),
{
    let hash_u256 = U256::from_hash(pow_hash);
    hash_u256.at_most(difficulty)
}

/// `nonce` proves work on `header` for `difficulty`.
pub open spec fn proves_work(header: Seq<u8>, nonce: u64, difficulty: U256) -> bool {
    be_value(argon2i_raw_hash(pow_input(header, nonce), pow_input(header, nonce)))
        <= difficulty.value()
}

/// Checks that `nonce` proves work on `header` for `difficulty`.
pub fn verify(header: &[u8], nonce: u64, difficulty: U256) -> (r: bool)
    requires
        8 <= header@.len() <= 0xFFFF_FFFF,
    ensures
        r == proves_work(header@, nonce, difficulty),
{
    proof {
        vstd::bytes::lemma_auto_spec_u64_to_from_le_bytes();
    }
    let pow_header = set_header_nonce(header, nonce);
    let pow_hash = calculate_hash(pow_header.as_slice());
    meets_target(&pow_hash, &difficulty)
}

/// A nonce to try: some number below `u64::MAX`.
pub fn generate_nonce() -> (n: u64)
    ensures
        n < u64::MAX,
{
    random_in_range(0, u64::MAX)
}

/// The consensus bytes of a proof-of-work header: its nonce.
#[derive(Clone, Copy, Debug, PartialEq, Eq)]
pub struct ArgonConsensus {
    pub nonce: u64,
}

impl ArgonConsensus {
    /// Reads the nonce from the first eight bytes, little-endian.
    pub fn try_from(value: Vec<u8>) -> (r: Result<ArgonConsensus, ConsensusError>)
        ensures
            value@.len() >= 8 ==> r == Ok::<ArgonConsensus, ConsensusError>(
                ArgonConsensus { nonce: spec_u64_from_le_bytes(value@.take(8)) },
            ),
            value@.len() < 8 ==> r == Err::<ArgonConsensus, ConsensusError>(
                ConsensusError::MalformedNonce,
            ),
    {
        if value.len() < 8 {
            return Err(ConsensusError::MalformedNonce);
        }
        Ok(ArgonConsensus { nonce: vec_to_u64(value) })
    }

    /// The nonce as eight little-endian bytes.
    pub fn into(self) -> (bytes: Vec<u8>)
        ensures
            bytes@ == spec_u64_to_le_bytes(self.nonce),
    {
        u64_to_vec(self.nonce)
    }
}

impl Consensus for ArgonConsensus {
    /// A header is accepted when its consensus bytes hold a nonce that
    /// proves work on the header's identifier for the header's difficulty.
    open spec fn accepts(header: HeaderView) -> bool {
        &&& header.consensus_header.len() >= 8
        &&& proves_work(
            header.id.bytes@,
            spec_u64_from_le_bytes(header.consensus_header.take(8)),
            header.difficulty,
        )
    }

    fn init_genesis_header() -> (bytes: Vec<u8>) {
        Vec::new()
    }

    fn verify_header(header: &BlockHeader) -> (r: Result<(), ConsensusError>)
        ensures
            header.consensus_header@.len() < 8 <==> r == Err::<(), ConsensusError>(
                ConsensusError::MalformedNonce,
            ),
    {
        let df = header.difficult();
        if header.consensus_header().len() < 8 {
            return Err(ConsensusError::MalformedNonce);
        }
        let nonce = read_u64_le(header.consensus_header().as_slice());
        let id = header.id().to_vec();
        if verify(id.as_slice(), nonce, df) {
            Ok(())
        } else {
            Err(ConsensusError::InvalidHeader)
        }
    }
}

} // verus!
