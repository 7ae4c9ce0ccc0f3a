//! Chain data: headers, the payloads that travel with them, and what a peer
//! advertises about its own chain.

use vstd::prelude::*;
use crate::hash::HashValue;
use crate::hash::U256;
use crate::order::Order;
use crate::order::Ranked;

verus! {

/// Height of a block above genesis.
pub type BlockNumber = u64;

/// Identifier of a peer.
pub type PeerId = HashValue;

/// A peer and the chain head that it advertises.
#[derive(Clone, Copy, Debug, PartialEq, Eq, Hash)]
pub struct PeerInfo {
    pub id: PeerId,
    pub block_number: BlockNumber,
    pub total_difficulty: U256,
}

impl PeerInfo {
    pub fn new(id: PeerId, block_number: BlockNumber, total_difficulty: U256) -> (p: PeerInfo)
        ensures
            p.id == id,
            p.block_number == block_number,
            p.total_difficulty == total_difficulty,
    {
        PeerInfo { id, block_number, total_difficulty }
    }

    pub fn get_peer_id(&self) -> (id: PeerId)
        ensures
            id == self.id,
    {
        self.id
    }

    pub fn get_block_number(&self) -> (n: BlockNumber)
        ensures
            n == self.block_number,
    {
        self.block_number
    }

    /// Whether two records are the same in every field.
    pub fn equals(&self, other: &PeerInfo) -> (r: bool)
        ensures
            r == (*self == *other),
    {
        let same_difficulty = self.total_difficulty.compare(&other.total_difficulty) == Order::Equal;
        self.id.equals(&other.id) && self.block_number == other.block_number && same_difficulty
    }
}

/// Header of a block.  Immutable once created.
#[derive(Clone, Debug, PartialEq, Eq)]
pub struct BlockHeader {
    /// Content hash of the block.
    pub id: HashValue,
    /// Identifier of the block one height below.
    pub parent_id: HashValue,
    pub number: BlockNumber,
    /// Target that a proof of work has to meet.
    pub difficulty: U256,
    /// Bytes that belong to the consensus scheme (a nonce, or nothing).
    pub consensus_header: Vec<u8>,
}

/// A header as a value: the bytes of its consensus scheme as a sequence.
pub struct HeaderView {
    pub id: HashValue,
    pub parent_id: HashValue,
    pub number: BlockNumber,
    pub difficulty: U256,
    pub consensus_header: Seq<u8>,
}

impl View for BlockHeader {
    type V = HeaderView;

    open spec fn view(&self) -> HeaderView {
        HeaderView {
            id: self.id,
            parent_id: self.parent_id,
            number: self.number,
            difficulty: self.difficulty,
            consensus_header: self.consensus_header@,
        }
    }
}

/// A copy of `bytes`.
pub fn copy_bytes(bytes: &Vec<u8>) -> (out: Vec<u8>)
    ensures
        out@ == bytes@,
{
    let mut out: Vec<u8> = Vec::new();
    let mut i: usize = 0;
    while i < bytes.len()
        invariant
            i <= bytes@.len(),
            out@ == bytes@.take(i as int),
        decreases bytes@.len() - i,
    {
        out.push(bytes[i]);
        assert(bytes@.take(i + 1) == bytes@.take(i as int).push(bytes@[i as int]));
        i = i + 1;
    }
    assert(bytes@.take(bytes@.len() as int) == bytes@);
    out
}

impl BlockHeader {
    /// A copy of the header.
    pub fn duplicate(&self) -> (h: BlockHeader)
        ensures
            h@ == self@,
    {
        BlockHeader {
            id: self.id,
            parent_id: self.parent_id,
            number: self.number,
            difficulty: self.difficulty,
            consensus_header: copy_bytes(&self.consensus_header),
        }
    }

    pub fn id(&self) -> (h: HashValue)
        ensures
            h == self.id,
    {
        self.id
    }

    pub fn parent_id(&self) -> (h: HashValue)
        ensures
            h == self.parent_id,
    {
        self.parent_id
    }

    pub fn number(&self) -> (n: BlockNumber)
        ensures
            n == self.number,
    {
        self.number
    }

    pub fn difficult(&self) -> (d: U256)
        ensures
            d == self.difficulty,
    {
        self.difficulty
    }

    pub fn consensus_header(&self) -> (bytes: &Vec<u8>)
        ensures
            bytes == &self.consensus_header,
    {
        &self.consensus_header
    }
}

/// Transactions of a block, kept as the bytes in which they travel.
#[derive(Clone, Debug, PartialEq, Eq)]
pub struct BlockBody {
    /// Identifier of the block that the body belongs to.
    pub block_id: HashValue,
    pub payload: Vec<u8>,
}

/// A payload as a value.
pub struct PayloadView {
    pub block_id: HashValue,
    pub payload: Seq<u8>,
}

impl View for BlockBody {
    type V = PayloadView;

    open spec fn view(&self) -> PayloadView {
        PayloadView { block_id: self.block_id, payload: self.payload@ }
    }
}

impl BlockBody {
    /// A copy of the body.
    pub fn duplicate(&self) -> (b: BlockBody)
        ensures
            b@ == self@,
    {
        BlockBody { block_id: self.block_id, payload: copy_bytes(&self.payload) }
    }
}

/// Execution and verification metadata of a block.
#[derive(Clone, Debug, PartialEq, Eq)]
pub struct BlockInfo {
    /// Identifier of the block that the record belongs to.
    pub block_id: HashValue,
    pub payload: Vec<u8>,
}

impl View for BlockInfo {
    type V = PayloadView;

    open spec fn view(&self) -> PayloadView {
        PayloadView { block_id: self.block_id, payload: self.payload@ }
    }
}

impl BlockInfo {
    /// A copy of the record.
    pub fn duplicate(&self) -> (b: BlockInfo)
        ensures
            b@ == self@,
    {
        BlockInfo { block_id: self.block_id, payload: copy_bytes(&self.payload) }
    }
}

/// A block as a value.
pub struct BlockView {
    pub header: HeaderView,
    pub body: PayloadView,
    pub info: PayloadView,
}

impl BlockView {
    /// Header, body and metadata all name the same block.
    pub open spec fn aligned(self) -> bool {
        self.body.block_id == self.header.id && self.info.block_id == self.header.id
    }
}

impl View for Block {
    type V = BlockView;

    open spec fn view(&self) -> BlockView {
        BlockView { header: self.header@, body: self.body@, info: self.info@ }
    }
}

/// A header together with its body and metadata.
#[derive(Clone, Debug, PartialEq, Eq)]
pub struct Block {
    pub header: BlockHeader,
    pub body: BlockBody,
    pub info: BlockInfo,
}

impl Block {
    /// A copy of the block.
    pub fn duplicate(&self) -> (b: Block)
        ensures
            b@ == self@,
    {
        Block {
            header: self.header.duplicate(),
            body: self.body.duplicate(),
            info: self.info.duplicate(),
        }
    }

    /// Whether header, body and metadata all name the same block.
    pub fn is_aligned(&self) -> (r: bool)
        ensures
            r == self@.aligned(),
    {
        self.body.block_id.equals(&self.header.id) && self.info.block_id.equals(&self.header.id)
    }

    pub fn header(&self) -> (h: &BlockHeader)
        ensures
            h == &self.header,
    {
        &self.header
    }
}

/// A block that still lacks the bytes of its consensus scheme.
#[derive(Clone, Debug, PartialEq, Eq)]
pub struct BlockTemplate {
    pub id: HashValue,
    pub parent_id: HashValue,
    pub number: BlockNumber,
    pub difficulty: U256,
    pub body: BlockBody,
    pub info: BlockInfo,
}

impl BlockTemplate {
    /// The block that the template becomes with `consensus_header`.
    pub open spec fn block_with(self, consensus_header: Seq<u8>) -> BlockView {
        BlockView {
            header: HeaderView {
                id: self.id,
                parent_id: self.parent_id,
                number: self.number,
                difficulty: self.difficulty,
                consensus_header,
            },
            body: self.body@,
            info: self.info@,
        }
    }

    /// Completes the template with the bytes of a consensus scheme.
    pub fn into_block(self, consensus_header: Vec<u8>) -> (b: Block)
        ensures
            b@ == self.block_with(consensus_header@),
    {
        Block {
            header: BlockHeader {
                id: self.id,
                parent_id: self.parent_id,
                number: self.number,
                difficulty: self.difficulty,
                consensus_header,
            },
            body: self.body,
            info: self.info,
        }
    }
}

/// Blocks are ordered by their identifier.
impl Ranked for Block {
    open spec fn le(&self, other: &Self) -> bool {
        self.header.id.value() <= other.header.id.value()
    }

    proof fn le_reflexive(a: &Self) {
    }

    proof fn le_transitive(a: &Self, b: &Self, c: &Self) {
    }

    proof fn le_total(a: &Self, b: &Self) {
    }

    fn compare(&self, other: &Self) -> (o: Order) {
        self.header.id.compare(&other.header.id)
    }
}

/// Headers are ordered by their identifier.
impl Ranked for BlockHeader {
    open spec fn le(&self, other: &Self) -> bool {
        self.id.value() <= other.id.value()
    }

    proof fn le_reflexive(a: &Self) {
    }

    proof fn le_transitive(a: &Self, b: &Self, c: &Self) {
    }

    proof fn le_total(a: &Self, b: &Self) {
    }

    fn compare(&self, other: &Self) -> (o: Order) {
        self.id.compare(&other.id)
    }
}

} // verus!
