//! Application of fetched blocks to the local chain: in order, one height at
//! a time, and only after the consensus scheme has accepted the header.

use vstd::prelude::*;
use std::marker::PhantomData;
use crate::block::Block;
use crate::block::BlockView;
use crate::chain::MemChain;
use crate::chain::connect_error;
use crate::chain::linked;
use crate::consensus::Consensus;

verus! {

/// How a run of the processor ended.
#[derive(Clone, Copy, Debug, PartialEq, Eq, Structural)]
pub enum ProcessStatus {
    /// Every entry was applied, or dropped because its height was already
    /// applied.
    Drained,
    /// The next entry lies above the height that the chain needs next; it
    /// and what follows it are handed back.
    Deferred,
    /// The consensus scheme refused the header of the next entry.  The entry
    /// is dropped and what follows it is handed back, unapplied.
    VerificationFailed,
    /// The chain refused the next entry, whose parent is not the head.  The
    /// entry is dropped and what follows it is handed back, unapplied.
    Rejected,
}

/// What a run of the processor does to a chain, as a value.
pub struct Processed {
    /// The chain afterwards.
    pub chain: Seq<BlockView>,
    /// Number of blocks applied.
    pub applied: nat,
    pub status: ProcessStatus,
    /// The entries handed back.
    pub rest: Seq<Block>,
}

/// The effect of processing `entries`, in order, on `chain`.
///
/// An entry below the next height is dropped.  An entry at the next height
/// is applied if the scheme accepts its header and the chain its parent;
/// if not, the run ends there.  An entry above the next height ends the run
/// too, with nothing lost.
pub open spec fn process_spec<C: Consensus>(chain: Seq<BlockView>, entries: Seq<Block>) -> Processed
    decreases entries.len(),
{
    if entries.len() == 0 {
        Processed { chain, applied: 0, status: ProcessStatus::Drained, rest: entries }
    } else {
        let block = entries[0];
        if block.header.number < chain.len() {
            process_spec::<C>(chain, entries.skip(1))
        } else if block.header.number > chain.len() {
            Processed { chain, applied: 0, status: ProcessStatus::Deferred, rest: entries }
        } else if !C::accepts(block.header@) {
            Processed {
                chain,
                applied: 0,
                status: ProcessStatus::VerificationFailed,
                rest: entries.skip(1),
            }
        } else if connect_error(chain, block@) is Some {
            Processed { chain, applied: 0, status: ProcessStatus::Rejected, rest: entries.skip(1) }
        } else {
            let after = process_spec::<C>(chain.push(block@), entries.skip(1));
            Processed { applied: after.applied + 1, ..after }
        }
    }
}

/// The result of a run of the processor.
pub struct ProcessOutcome {
    /// Number of blocks applied to the chain.
    pub applied: usize,
    pub status: ProcessStatus,
    /// The entries that were neither applied nor dropped, in order.
    pub leftover: Vec<Block>,
}

/// The writer of chain state, for the consensus scheme `C`.
pub struct Processor<C: Consensus> {
    scheme: PhantomData<C>,
}

impl<C: Consensus> Processor<C> {
    pub fn new() -> (p: Self) {
        Processor { scheme: PhantomData }
    }

    /// Applies `entries`, which come in ascending order, to `chain`.
    pub fn process(&self, chain: &mut MemChain, entries: Vec<Block>) -> (out: ProcessOutcome)
        requires
            old(chain).wf(),
        ensures
            final(chain).wf(),
            final(chain)@ == process_spec::<C>(old(chain)@, entries@).chain,
            out.applied == process_spec::<C>(old(chain)@, entries@).applied,
            out.status == process_spec::<C>(old(chain)@, entries@).status,
            out.leftover@ == process_spec::<C>(old(chain)@, entries@).rest,
    {
        let ghost whole = process_spec::<C>(chain@, entries@);
        let total = entries.len();
        let mut pending = entries;
        let mut applied: usize = 0;
        while pending.len() > 0
            invariant
                chain.wf(),
                applied + pending@.len() <= total,
                whole == process_spec::<C>(old(chain)@, entries@),
                whole.chain == process_spec::<C>(chain@, pending@).chain,
                whole.applied == applied + process_spec::<C>(chain@, pending@).applied,
                whole.status == process_spec::<C>(chain@, pending@).status,
                whole.rest == process_spec::<C>(chain@, pending@).rest,
            decreases pending@.len(),
        {
            let ghost before = pending@;
            let next = chain.len();
            let number = pending[0].header.number;
            if number > next as u64 {
                return ProcessOutcome { applied, status: ProcessStatus::Deferred, leftover: pending };
            }
            let block = pending.remove(0);
            assert(pending@ == before.skip(1));
            assert(block == before[0]);
            if number < next as u64 {
                continue ;
            }
            match C::verify_header(&block.header) {
                Ok(()) => {},
                Err(_) => {
                    return ProcessOutcome {
                        applied,
                        status: ProcessStatus::VerificationFailed,
                        leftover: pending,
                    };
                },
            }
            match chain.try_connect(block) {
                Ok(()) => {
                    applied = applied + 1;
                },
                Err(_) => {
                    return ProcessOutcome {
                        applied,
                        status: ProcessStatus::Rejected,
                        leftover: pending,
                    };
                },
            }
        }
        ProcessOutcome { applied, status: ProcessStatus::Drained, leftover: pending }
    }
}

/// Monotonic application: a run only ever extends the chain, by the blocks
/// that it counts as applied.  Each of them carries the height that the
/// chain needed when it was applied, one above the head of that moment, and
/// a header that the consensus scheme accepts.
pub proof fn lemma_process_extends<C: Consensus>(chain: Seq<BlockView>, entries: Seq<Block>)
    requires
        linked(chain),
    ensures
        ({
            let done = process_spec::<C>(chain, entries);
            &&& linked(done.chain)
            &&& done.chain.len() == chain.len() + done.applied
            &&& done.chain.take(chain.len() as int) == chain
            &&& forall|i: int|
                chain.len() <= i < done.chain.len() ==> (#[trigger] done.chain[i]).header.number
                    == i
            &&& forall|i: int|
                chain.len() <= i < done.chain.len() ==> C::accepts(
                    (#[trigger] done.chain[i]).header,
                )
            &&& done.applied <= entries.len()
            &&& done.rest.len() <= entries.len()
        }),
    decreases entries.len(),
{
    let done = process_spec::<C>(chain, entries);
    if entries.len() == 0 {
        assert(done.chain.take(chain.len() as int) =~= chain);
    } else {
        let block = entries[0];
        if block.header.number < chain.len() {
            lemma_process_extends::<C>(chain, entries.skip(1));
        } else if block.header.number == chain.len() && C::accepts(block.header@) && connect_error(
            chain,
            block@,
        ) is None {
            let longer = chain.push(block@);
            assert forall|i: int| 0 <= i < longer.len() implies (#[trigger] longer[i]).header.number
                == i && longer[i].aligned() by {
                if i < chain.len() {
                    assert(chain[i].aligned());
                }
            }
            assert forall|i: int| 0 < i < longer.len() implies (#[trigger] longer[i]).header.parent_id
                == longer[i - 1].header.id by {
                if i < chain.len() {
                    assert(chain[i].header.parent_id == chain[i - 1].header.id);
                }
            }
            lemma_process_extends::<C>(longer, entries.skip(1));
            assert(done.chain.take(longer.len() as int)[chain.len() as int] == longer[chain.len() as int]);
            assert(done.chain.take(chain.len() as int) =~= done.chain.take(
                longer.len() as int,
            ).take(chain.len() as int));
            assert(longer.take(chain.len() as int) =~= chain);
        } else {
            assert(done.chain.take(chain.len() as int) =~= chain);
        }
    }
}

} // verus!
