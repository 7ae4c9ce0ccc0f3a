//! The local ledger: blocks by height, each linked to the one below.

use vstd::prelude::*;
use crate::block::Block;
use crate::block::BlockHeader;
use crate::block::BlockNumber;
use crate::block::BlockView;
use crate::hash::HashValue;

verus! {

/// Why a block was not connected.
#[derive(Clone, Copy, Debug, PartialEq, Eq, Structural)]
pub enum ChainError {
    /// Body or metadata belong to another block than the header.
    Misaligned,
    /// The block's number is not one above the head's.
    NotNext,
    /// The block's parent is not the head.
    ParentMismatch,
}

/// Heights are positions, payloads belong to their headers, and every block
/// names the block below it as its parent.
pub open spec fn linked(s: Seq<BlockView>) -> bool {
    &&& forall|i: int| 0 <= i < s.len() ==> (#[trigger] s[i]).header.number == i && s[i].aligned()
    &&& forall|i: int| 0 < i < s.len() ==> (#[trigger] s[i]).header.parent_id == s[i - 1].header.id
}

/// The number that the next block of `s` has to carry, if there is one.
pub open spec fn next_number(s: Seq<BlockView>) -> Option<BlockNumber> {
    if s.len() <= u64::MAX {
        Some(s.len() as u64)
    } else {
        None
    }
}

/// Why `block` cannot be connected to `s`, or `None` if it can.
pub open spec fn connect_error(s: Seq<BlockView>, block: BlockView) -> Option<ChainError> {
    if !block.aligned() {
        Some(ChainError::Misaligned)
    } else if next_number(s) != Some(block.header.number) {
        Some(ChainError::NotNext)
    } else if s.len() > 0 && block.header.parent_id != s.last().header.id {
        Some(ChainError::ParentMismatch)
    } else {
        None
    }
}

/// A chain held in memory.
pub struct MemChain {
    blocks: Vec<Block>,
}

impl View for MemChain {
    type V = Seq<BlockView>;

    closed spec fn view(&self) -> Seq<BlockView> {
        self.blocks@.map_values(|b: Block| b@)
    }
}

impl MemChain {
    /// The chain's invariant.
    pub open spec fn wf(&self) -> bool {
        linked(self@)
    }

    /// A chain without blocks.
    pub fn new() -> (chain: MemChain)
        ensures
            chain@ == Seq::<BlockView>::empty(),
            chain.wf(),
    {
        let chain = MemChain { blocks: Vec::new() };
        assert(chain@ =~= Seq::<BlockView>::empty());
        chain
    }

    /// Number of blocks held.
    pub fn len(&self) -> (n: usize)
        ensures
            n == self@.len(),
    {
        self.blocks.len()
    }

    /// The header of the highest block, or `None` for a chain without blocks.
    pub fn master_head_header(&self) -> (head: Option<&BlockHeader>)
        ensures
            self@.len() == 0 <==> head is None,
            head matches Some(h) ==> h@ == self@.last().header,
    {
        let len = self.blocks.len();
        if len == 0 {
            None
        } else {
            assert(self@[len - 1] == self.blocks@[len - 1]@);
            Some(&self.blocks[len - 1].header)
        }
    }

    /// The identifier of the block at height `number`, if the chain reaches it.
    pub fn header_id_at(&self, number: BlockNumber) -> (id: Option<HashValue>)
        ensures
            id == id_at(self@, number),
    {
        if number < self.blocks.len() as u64 {
            let i = number as usize;
            assert(self@[i as int] == self.blocks@[i as int]@);
            Some(self.blocks[i].header.id)
        } else {
            None
        }
    }

    /// The block at height `number`, if the chain reaches it.
    pub fn block_at(&self, number: BlockNumber) -> (block: Option<&Block>)
        ensures
            number < self@.len() <==> block is Some,
            block matches Some(b) ==> b@ == self@[number as int],
    {
        if number < self.blocks.len() as u64 {
            let i = number as usize;
            assert(self@[i as int] == self.blocks@[i as int]@);
            Some(&self.blocks[i])
        } else {
            None
        }
    }

    /// Connects one block on top of the head.
    ///
    /// The block has to carry the next number and, unless it is the first,
    /// name the head as its parent; otherwise the chain is left as it was.
    pub fn try_connect(&mut self, block: Block) -> (r: Result<(), ChainError>)
        requires
            old(self).wf(),
        ensures
            final(self).wf(),
            r == (match connect_error(old(self)@, block@) {
                Some(e) => Err::<(), ChainError>(e),
                None => Ok::<(), ChainError>(()),
            }),
            r is Ok ==> final(self)@ == old(self)@.push(block@),
            r is Err ==> final(self)@ == old(self)@,
    {
        if !block.is_aligned() {
            return Err(ChainError::Misaligned);
        }
        let len = self.blocks.len();
        if len as u64 != block.header.number {
            return Err(ChainError::NotNext);
        }
        if len > 0 {
            assert(self@[len - 1] == self.blocks@[len - 1]@);
            if !block.header.parent_id.equals(&self.blocks[len - 1].header.id) {
                return Err(ChainError::ParentMismatch);
            }
        }
        let ghost before = self@;
        let ghost added = block@;
        self.blocks.push(block);
        proof {
            assert(self@ =~= before.push(added));
            assert forall|i: int| 0 <= i < self@.len() implies (#[trigger] self@[i]).header.number
                == i && self@[i].aligned() by {
                if i < before.len() {
                    assert(before[i].aligned());
                }
            }
            assert forall|i: int| 0 < i < self@.len() implies (#[trigger] self@[i]).header.parent_id
                == self@[i - 1].header.id by {
                if i < before.len() {
                    assert(before[i].header.parent_id == before[i - 1].header.id);
                }
            }
        }
        Ok(())
    }

    /// Drops every block above height `number`.
    pub fn rollback_to(&mut self, number: BlockNumber)
        requires
            old(self).wf(),
        ensures
            final(self).wf(),
            final(self)@ == old(self)@.take(kept_after_rollback(old(self)@, number)),
    {
        let ghost before = self@;
        if number < self.blocks.len() as u64 {
            let keep = number as usize + 1;
            self.blocks.truncate(keep);
            proof {
                assert(self@ =~= before.take(keep as int));
                lemma_prefix_linked(before, keep as int);
            }
        } else {
            assert(self@ =~= before.take(before.len() as int));
        }
    }
}

/// The identifier at height `number` of `s`, if `s` reaches it.
pub open spec fn id_at(s: Seq<BlockView>, number: BlockNumber) -> Option<HashValue> {
    if number < s.len() {
        Some(s[number as int].header.id)
    } else {
        None
    }
}

/// How many blocks of `s` a rollback to height `number` keeps.
pub open spec fn kept_after_rollback(s: Seq<BlockView>, number: BlockNumber) -> int {
    if number < s.len() {
        number + 1
    } else {
        s.len() as int
    }
}

/// A prefix of a linked chain is a linked chain.
pub proof fn lemma_prefix_linked(s: Seq<BlockView>, n: int)
    requires
        linked(s),
        0 <= n <= s.len(),
    ensures
        linked(s.take(n)),
{
    let t = s.take(n);
    assert forall|i: int| 0 <= i < t.len() implies (#[trigger] t[i]).header.number == i
        && t[i].aligned() by {
        assert(s[i].aligned());
    }
    assert forall|i: int| 0 < i < t.len() implies (#[trigger] t[i]).header.parent_id == t[i
        - 1].header.id by {
        assert(s[i].header.parent_id == s[i - 1].header.id);
    }
}

} // verus!
