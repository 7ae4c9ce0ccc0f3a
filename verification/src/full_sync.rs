//! A whole synchronization session against a peer whose chain is at hand:
//! two nodes in one process, as in a benchmark or a test network.

use vstd::prelude::*;
use crate::ancestor::find_ancestor_header;
use crate::block::Block;
use crate::block::BlockBody;
use crate::block::BlockHeader;
use crate::block::BlockInfo;
use crate::block::BlockNumber;
use crate::block::BlockView;
use crate::block::PeerInfo;
use crate::ancestor::chains_agree;
use crate::ancestor::initial_state;
use crate::ancestor::outcome;
use crate::ancestor_lemmas::lemma_search_is_sound;
use crate::chain::MemChain;
use crate::chain::connect_error;
use crate::chain::linked;
use crate::download::aligned_at;
use crate::download::batch_error;
use crate::download::follows_at;
use crate::download::pool_insert_all;
use crate::download::zipped;
use crate::pool::EntryView;
use crate::pool::artifacts;
use crate::hash::lemma_hash_order_is_exact;
use crate::pool::entry_before_key;
use crate::pool::entry_holds;
use crate::pool::holds_artifact;
use crate::pool::expiry_from;
use crate::pool::is_slot;
use crate::pool::lemma_slot_unique;
use crate::pool::pool_insert;
use crate::process::process_spec;
use crate::consensus::Consensus;
use crate::process::ProcessStatus;
use crate::sync::FailReason;
use crate::sync::Fault;
use crate::sync::MAX_ATTEMPTS;
use crate::sync::Session;
use crate::sync::SessionEnd;
use crate::sync::SyncAction;
use crate::sync::SyncEvent;
use crate::sync::SyncFlow;
use crate::sync::active;
use crate::sync::batch_event;
use crate::sync::check_batch_start;
use crate::sync::distance;
use crate::sync::lemma_session_makes_progress;

verus! {

/// Most blocks that one request brings.
pub const BATCH_SIZE: u64 = 16;

/// The height up to which a request for the blocks after `after` reads a
/// chain of `len` blocks, when the peer's head is reported at `end`: at most
/// `BATCH_SIZE` blocks, none above `end`, none that the chain lacks.  All
/// heights above `after` and up to the result are read.
pub open spec fn batch_end(len: nat, after: BlockNumber, end: BlockNumber) -> int {
    let by_size = after + BATCH_SIZE;
    let by_end = if end < by_size {
        end as int
    } else {
        by_size
    };
    let by_len = if len - 1 < by_end {
        len - 1
    } else {
        by_end
    };
    if by_len < after {
        after as int
    } else {
        by_len
    }
}

/// What a request for the blocks after `after` brings from `remote`.
pub struct Batch {
    pub headers: Vec<BlockHeader>,
    pub bodies: Vec<BlockBody>,
    pub infos: Vec<BlockInfo>,
}

impl Batch {
    /// The batch holds the blocks of `remote` at the heights above `after`
    /// and up to `last`, in order.
    pub open spec fn holds(&self, remote: Seq<BlockView>, after: BlockNumber, last: int) -> bool {
        &&& self.headers@.len() == last - after
        &&& self.bodies@.len() == last - after
        &&& self.infos@.len() == last - after
        &&& forall|i: int|
            0 <= i < last - after ==> (#[trigger] self.headers@[i])@ == remote[after + 1
                + i].header
        &&& forall|i: int|
            0 <= i < last - after ==> (#[trigger] self.bodies@[i])@ == remote[after + 1 + i].body
        &&& forall|i: int|
            0 <= i < last - after ==> (#[trigger] self.infos@[i])@ == remote[after + 1 + i].info
    }
}

/// Reads from `remote` the blocks that follow height `after`, as a peer
/// would hand them out on request.
pub fn fetch_batch(remote: &MemChain, after: BlockNumber, end: BlockNumber) -> (batch: Batch)
    ensures
        batch.holds(remote@, after, batch_end(remote@.len(), after, end)),
{
    let mut batch = Batch { headers: Vec::new(), bodies: Vec::new(), infos: Vec::new() };
    let ghost last = batch_end(remote@.len(), after, end);
    let mut number = after;
    let mut count: u64 = 0;
    while count < BATCH_SIZE && number < end
        invariant
            count <= BATCH_SIZE,
            number == after + count,
            number <= last,
            last == batch_end(remote@.len(), after, end),
            batch.holds(remote@, after, number as int),
        ensures
            number == last,
        decreases BATCH_SIZE - count,
    {
        let next_number = number + 1;
        match remote.block_at(next_number) {
            None => {
                break ;
            },
            Some(block) => {
                let ghost before = batch;
                let copy = block.duplicate();
                batch.headers.push(copy.header);
                batch.bodies.push(copy.body);
                batch.infos.push(copy.info);
                proof {
                    assert forall|i: int| 0 <= i < next_number - after implies (
                    #[trigger] batch.headers@[i])@ == remote@[after + 1 + i].header by {
                        if i < number - after {
                            assert(batch.headers@[i] == before.headers@[i]);
                        }
                    }
                    assert forall|i: int| 0 <= i < next_number - after implies (
                    #[trigger] batch.bodies@[i])@ == remote@[after + 1 + i].body by {
                        if i < number - after {
                            assert(batch.bodies@[i] == before.bodies@[i]);
                        }
                    }
                    assert forall|i: int| 0 <= i < next_number - after implies (
                    #[trigger] batch.infos@[i])@ == remote@[after + 1 + i].info by {
                        if i < number - after {
                            assert(batch.infos@[i] == before.infos@[i]);
                        }
                    }
                }
                number = next_number;
                count = count + 1;
            },
        }
    }
    batch
}

/// The entries that a pool holds after one peer has offered `blocks`, each
/// once, in ascending order of height, to an empty pool.
pub open spec fn entries_of(expiry: u64, peer: PeerInfo, blocks: Seq<Block>) -> Seq<
    EntryView<Block>,
> {
    Seq::new(
        blocks.len(),
        |i: int|
            EntryView {
                data: blocks[i],
                expiration_time: expiry,
                block_number: blocks[i].header.number,
                peers: seq![peer],
            },
    )
}

/// Different blocks of ascending height, offered to an empty pool, are held
/// in the order in which they were offered.
pub proof fn lemma_ascending_run_is_held_in_order(expiry: u64, peer: PeerInfo, blocks: Seq<Block>)
    requires
        forall|i: int, j: int|
            0 <= i < j < blocks.len() ==> (#[trigger] blocks[i]).header.number < (
            #[trigger] blocks[j]).header.number && blocks[i].header.id != blocks[j].header.id,
    ensures
        pool_insert_all(Seq::<EntryView<Block>>::empty(), expiry, peer, blocks) == entries_of(
            expiry,
            peer,
            blocks,
        ),
        artifacts(entries_of(expiry, peer, blocks)) == blocks,
    decreases blocks.len(),
{
    let empty = Seq::<EntryView<Block>>::empty();
    let all = entries_of(expiry, peer, blocks);
    assert(artifacts(all) =~= blocks);
    if blocks.len() == 0 {
        assert(all =~= empty);
    } else {
        let front = blocks.drop_last();
        let last = blocks.last();
        assert forall|i: int, j: int| 0 <= i < j < front.len() implies (
        #[trigger] front[i]).header.number < (#[trigger] front[j]).header.number
            && front[i].header.id != front[j].header.id by {
            assert(blocks[i].header.number < blocks[j].header.number);
        }
        lemma_ascending_run_is_held_in_order(expiry, peer, front);
        let held = entries_of(expiry, peer, front);
        assert forall|j: int| 0 <= j < held.len() implies !entry_holds(
            #[trigger] held[j],
            &last,
        ) by {
            assert(blocks[j].header.number < blocks[blocks.len() - 1].header.number);
            if entry_holds(held[j], &last) {
                lemma_hash_order_is_exact(blocks[j].header.id, last.header.id);
            }
        }
        assert(!holds_artifact(held, &last));
        assert forall|j: int| 0 <= j < held.len() implies entry_before_key(
            #[trigger] held[j],
            last.header.number,
            &last,
        ) by {
            assert(blocks[j].header.number < blocks[blocks.len() - 1].header.number);
        }
        assert(is_slot(held, held.len() as int, last.header.number, &last));
        lemma_slot_unique(held, held.len() as int, last.header.number, &last);
        assert(pool_insert(held, expiry, peer, last.header.number, last) =~= all);
    }
}

/// The lowest height above `from` and up to `to` at which the consensus
/// scheme refuses the header of `chain`, or `to + 1` where it accepts all of
/// them.
pub open spec fn first_refused<C: Consensus>(chain: Seq<BlockView>, from: int, to: int) -> int
    decreases to - from,
{
    if from >= to {
        to + 1
    } else if !C::accepts(chain[from + 1].header) {
        from + 1
    } else {
        first_refused::<C>(chain, from + 1, to)
    }
}

/// What `first_refused` finds: a height above `from`, below which, and above
/// `from`, every header is accepted, and at which, if it is not beyond `to`,
/// the header is refused.
pub proof fn lemma_first_refused<C: Consensus>(chain: Seq<BlockView>, from: int, to: int)
    requires
        from <= to,
    ensures
        from < first_refused::<C>(chain, from, to) <= to + 1,
        forall|i: int|
            from < i < first_refused::<C>(chain, from, to) ==> C::accepts(
                (#[trigger] chain[i]).header,
            ),
        first_refused::<C>(chain, from, to) <= to ==> !C::accepts(
            chain[first_refused::<C>(chain, from, to)].header,
        ),
    decreases to - from,
{
    if from < to && C::accepts(chain[from + 1].header) {
        lemma_first_refused::<C>(chain, from + 1, to);
    }
}

/// A search for the first refused header may stop and go on: up to `mid`
/// first, and from `mid` on if nothing was found up to there.
pub proof fn lemma_first_refused_in_two_steps<C: Consensus>(
    chain: Seq<BlockView>,
    from: int,
    mid: int,
    to: int,
)
    requires
        from <= mid <= to,
    ensures
        first_refused::<C>(chain, from, to) == (if first_refused::<C>(chain, from, mid) <= mid {
            first_refused::<C>(chain, from, mid)
        } else {
            first_refused::<C>(chain, mid, to)
        }),
    decreases mid - from,
{
    if from < mid {
        if C::accepts(chain[from + 1].header) {
            lemma_first_refused_in_two_steps::<C>(chain, from + 1, mid, to);
        }
    }
}

/// A run of the peer's blocks, the first of them next on our chain, is
/// applied up to the first header that the consensus scheme refuses, and
/// whole if it refuses none.
pub proof fn lemma_run_is_applied_until_refused<C: Consensus>(
    remote: Seq<BlockView>,
    k: int,
    blocks: Seq<Block>,
)
    requires
        linked(remote),
        0 <= k,
        k + blocks.len() <= remote.len(),
        remote.len() <= u64::MAX,
        forall|i: int| 0 <= i < blocks.len() ==> (#[trigger] blocks[i])@ == remote[k + i],
    ensures
        ({
            let last = k + blocks.len() - 1;
            let stop = first_refused::<C>(remote, k - 1, last);
            let done = process_spec::<C>(remote.take(k), blocks);
            &&& stop <= last ==> done.chain == remote.take(stop) && done.status
                == ProcessStatus::VerificationFailed
            &&& stop > last ==> done.chain == remote.take(k + blocks.len()) && done.status
                == ProcessStatus::Drained && done.applied == blocks.len() && done.rest.len() == 0
        }),
    decreases blocks.len(),
{
    let chain = remote.take(k);
    if blocks.len() == 0 {
    } else {
        let block = blocks[0];
        assert(block@ == remote[k]);
        assert(remote[k].header.number == k && remote[k].aligned());
        if C::accepts(remote[k].header) {
            if k > 0 {
                assert(remote[k].header.parent_id == remote[k - 1].header.id);
                assert(chain.last() == remote[k - 1]);
            }
            assert(connect_error(chain, block@) is None);
            assert(chain.push(block@) =~= remote.take(k + 1));
            let rest = blocks.skip(1);
            assert forall|i: int| 0 <= i < rest.len() implies (#[trigger] rest[i])@ == remote[k
                + 1 + i] by {
                assert(blocks[i + 1]@ == remote[k + (i + 1)]);
            }
            lemma_run_is_applied_until_refused::<C>(remote, k + 1, rest);
        }
    }
}

/// A batch that holds a stretch of a linked chain is a contiguous run of
/// blocks.
pub proof fn lemma_batch_of_chain_is_contiguous(
    batch: Batch,
    remote: Seq<BlockView>,
    after: BlockNumber,
    last: int,
)
    requires
        linked(remote),
        distinct_ids(remote),
        after <= last < remote.len(),
        batch.holds(remote, after, last),
    ensures
        batch_error(batch.headers@, batch.bodies@, batch.infos@) is None,
        forall|i: int|
            0 <= i < last - after ==> (#[trigger] zipped(
                batch.headers@,
                batch.bodies@,
                batch.infos@,
            )[i])@ == remote[after + 1 + i],
        forall|i: int, j: int|
            0 <= i < j < last - after ==> (#[trigger] zipped(
                batch.headers@,
                batch.bodies@,
                batch.infos@,
            )[i]).header.number < (#[trigger] zipped(
                batch.headers@,
                batch.bodies@,
                batch.infos@,
            )[j]).header.number && zipped(batch.headers@, batch.bodies@, batch.infos@)[i].header.id
                != zipped(batch.headers@, batch.bodies@, batch.infos@)[j].header.id,
{
    let h = batch.headers@;
    let b = batch.bodies@;
    let f = batch.infos@;
    assert forall|i: int| 0 <= i < h.len() implies #[trigger] aligned_at(h, b, f, i) by {
        assert(h[i]@ == remote[after + 1 + i].header);
        assert(b[i]@ == remote[after + 1 + i].body);
        assert(f[i]@ == remote[after + 1 + i].info);
        assert(remote[after + 1 + i].aligned());
    }
    assert forall|i: int| 0 < i < h.len() implies #[trigger] follows_at(h, i) by {
        assert(h[i]@ == remote[after + 1 + i].header);
        assert(h[i - 1]@ == remote[after + i].header);
        assert(remote[after + 1 + i].header.parent_id == remote[after + i].header.id);
        assert(remote[after + 1 + i].header.number == after + 1 + i);
        assert(remote[after + i].header.number == after + i);
    }
    let z = zipped(h, b, f);
    assert forall|i: int| 0 <= i < last - after implies (#[trigger] z[i])@ == remote[after + 1
        + i] by {
        assert(h[i]@ == remote[after + 1 + i].header);
        assert(b[i]@ == remote[after + 1 + i].body);
        assert(f[i]@ == remote[after + 1 + i].info);
    }
    assert forall|i: int, j: int| 0 <= i < j < last - after implies (
    #[trigger] z[i]).header.number < (#[trigger] z[j]).header.number && z[i].header.id
        != z[j].header.id by {
        assert(z[i]@ == remote[after + 1 + i]);
        assert(z[j]@ == remote[after + 1 + j]);
        assert(remote[after + 1 + i].header.id != remote[after + 1 + j].header.id);
        assert(remote[after + 1 + i].header.number == after + 1 + i);
        assert(remote[after + 1 + j].header.number == after + 1 + j);
    }
}

/// No identifier occurs at two heights of the chain.
pub open spec fn distinct_ids(s: Seq<BlockView>) -> bool {
    forall|i: int, j: int|
        0 <= i < j < s.len() ==> (#[trigger] s[i]).header.id != (#[trigger] s[j]).header.id
}

/// The two chains fit together: the peer's chain is linked and names no
/// block twice; ours holds a block; they share their first block; and
/// wherever they hold one block they hold one history up to it.
pub open spec fn compatible(local: Seq<BlockView>, remote: Seq<BlockView>) -> bool {
    &&& linked(remote)
    &&& distinct_ids(remote)
    &&& remote.len() <= u64::MAX
    &&& 0 < local.len()
    &&& chains_agree(local, remote, 0)
    &&& forall|h: BlockNumber| #[trigger]
        chains_agree(local, remote, h) ==> local.take(h + 1) == remote.take(h + 1)
}

/// How a session against `peer`, whose chain is `remote`, ends for a node
/// whose chain is `local`, and the chain that it leaves: where the chains fit
/// together, the peer is ahead and nothing is buffered.
///
/// The node keeps what it shares with the peer and follows the peer's chain
/// from there: up to the head that the peer reported, if the chain reaches
/// it and every header on the way is accepted; else up to the first header
/// that is refused, or to the end of the peer's chain.
pub open spec fn session_result<C: Consensus>(
    peer: PeerInfo,
    local: Seq<BlockView>,
    remote: Seq<BlockView>,
) -> (SessionEnd, Seq<BlockView>) {
    let head = (local.len() - 1) as u64;
    let found = outcome(initial_state(head, true), |h: BlockNumber| chains_agree(local, remote, h));
    let reach = if peer.block_number < remote.len() {
        peer.block_number as int
    } else {
        remote.len() - 1
    };
    let stop = first_refused::<C>(remote, found.number as int, reach);
    if stop <= reach {
        (SessionEnd::Failed(FailReason::VerificationFailed), remote.take(stop))
    } else if reach == peer.block_number {
        (SessionEnd::Converged, remote.take(reach + 1))
    } else {
        (SessionEnd::Failed(FailReason::FetchError), remote.take(reach + 1))
    }
}

/// What lets a session converge: the chains fit together, the peer is ahead
/// of us and its chain reaches the head that it reports, the consensus
/// scheme accepts the peer's headers, and nothing is buffered.
pub open spec fn can_converge<C: Consensus>(
    peer: PeerInfo,
    buffered: Seq<EntryView<Block>>,
    local: Seq<BlockView>,
    remote: Seq<BlockView>,
) -> bool {
    &&& compatible(local, remote)
    &&& local.len() <= peer.block_number < remote.len()
    &&& buffered.len() == 0
    &&& forall|i: int| 0 <= i < remote.len() ==> C::accepts((#[trigger] remote[i]).header)
}

/// A node that holds the first block alone meets a seed that has mined on
/// top of that block: the chains fit together, the seed reports the head
/// that it has, and the consensus scheme accepts the seed's headers.
pub open spec fn follows_seed<C: Consensus>(
    peer: PeerInfo,
    local: Seq<BlockView>,
    remote: Seq<BlockView>,
) -> bool {
    &&& compatible(local, remote)
    &&& local.len() == 1
    &&& peer.block_number + 1 == remote.len()
    &&& forall|i: int| 0 <= i < remote.len() ==> C::accepts((#[trigger] remote[i]).header)
}

/// A session that can converge does: it ends converged, on the peer's chain
/// up to the head that the peer reported.
pub proof fn lemma_converging_session<C: Consensus>(
    peer: PeerInfo,
    buffered: Seq<EntryView<Block>>,
    local: Seq<BlockView>,
    remote: Seq<BlockView>,
)
    requires
        can_converge::<C>(peer, buffered, local, remote),
    ensures
        session_result::<C>(peer, local, remote) == (
            SessionEnd::Converged,
            remote.take(peer.block_number + 1),
        ),
{
    let head = (local.len() - 1) as u64;
    let agree = |h: BlockNumber| chains_agree(local, remote, h);
    let found = outcome(initial_state(head, true), agree);
    let reach = peer.block_number as int;
    lemma_search_is_sound(initial_state(head, true), agree);
    lemma_first_refused::<C>(remote, found.number as int, reach);
}

/// The two chains hold blocks and end in the same one.
pub open spec fn same_head(local: Seq<BlockView>, remote: Seq<BlockView>) -> bool {
    local.len() > 0 && remote.len() > 0 && local.last().header.id == remote.last().header.id
}

/// The chain `after` is the first `kept` blocks of `before`, and above them
/// only blocks whose headers the consensus scheme accepts.
pub open spec fn grown_from<C: Consensus>(
    before: Seq<BlockView>,
    after: Seq<BlockView>,
    kept: int,
) -> bool {
    &&& 0 <= kept <= before.len()
    &&& kept <= after.len()
    &&& after.take(kept) == before.take(kept)
    &&& before.len() > 0 ==> kept > 0
    &&& forall|i: int| kept <= i < after.len() ==> C::accepts((#[trigger] after[i]).header)
}

/// Growth composes: a chain that grew from one that grew from a third grew
/// from the third, keeping what both steps kept.
pub proof fn lemma_growth_composes<C: Consensus>(
    a: Seq<BlockView>,
    b: Seq<BlockView>,
    c: Seq<BlockView>,
    first: int,
    second: int,
)
    requires
        grown_from::<C>(a, b, first),
        grown_from::<C>(b, c, second),
    ensures
        grown_from::<C>(
            a,
            c,
            if first < second {
                first
            } else {
                second
            },
        ),
{
    let k = if first < second {
        first
    } else {
        second
    };
    assert(c.take(k) =~= c.take(second).take(k));
    assert(b.take(k) =~= b.take(second).take(k));
    assert(b.take(k) =~= b.take(first).take(k));
    assert(a.take(k) =~= a.take(first).take(k));
    assert forall|i: int| k <= i < c.len() implies C::accepts((#[trigger] c[i]).header) by {
        if i < second {
            assert(c.take(second)[i] == b.take(second)[i]);
            assert(C::accepts(b[i].header));
        }
    }
}

/// Runs sessions of one node against another that lives in the same process.
pub struct SyncBencher {}

impl SyncBencher {
    /// Whether the two chains hold blocks and end in the same one.
    pub fn heads_agree(local: &MemChain, remote: &MemChain) -> (r: bool)
        ensures
            r == same_head(local@, remote@),
    {
        match local.master_head_header() {
            None => false,
            Some(ours) => match remote.master_head_header() {
                None => false,
                Some(theirs) => ours.id.equals(&theirs.id),
            },
        }
    }

    /// Synchronizes `local` against `peer`, whose chain is `remote`: runs up
    /// to `MAX_ATTEMPTS` sessions, each a fresh flow, until both chains end
    /// in the same block.  Returns whether they do.
    ///
    /// One session is enough where the peer reports the head that its chain
    /// has and the session can converge.  So a node that holds the first
    /// block alone ends on the chain of a seed that has mined any number of
    /// acceptable blocks on top of that block, none included.
    pub fn sync_block<C: Consensus>(
        peer: PeerInfo,
        local: &mut MemChain,
        remote: &MemChain,
        now: u64,
    ) -> (converged: bool)
        requires
            old(local).wf(),
        ensures
            final(local).wf(),
            converged == same_head(final(local)@, remote@),
            can_converge::<C>(peer, Seq::<EntryView<Block>>::empty(), old(local)@, remote@)
                && peer.block_number + 1 == remote@.len() ==> converged && final(local)@
                == remote@,
            follows_seed::<C>(peer, old(local)@, remote@) ==> converged && final(local)@ == remote@,
            peer.block_number < old(local)@.len() ==> final(local)@ == old(local)@,
            exists|kept: int| #[trigger] grown_from::<C>(old(local)@, final(local)@, kept),
    {
        let ghost fresh = follows_seed::<C>(peer, local@, remote@);
        let ghost mut kept = local@.len() as int;
        assert(local@.take(kept) == local@);
        assert(grown_from::<C>(local@, local@, kept));
        let ghost good = can_converge::<C>(
            peer,
            Seq::<EntryView<Block>>::empty(),
            local@,
            remote@,
        ) && peer.block_number + 1 == remote@.len();
        let mut attempt: u32 = 0;
        while attempt < MAX_ATTEMPTS
            invariant
                local.wf(),
                attempt <= MAX_ATTEMPTS,
                attempt == 0 ==> local@ == old(local)@,
                peer.block_number < old(local)@.len() ==> local@ == old(local)@,
                grown_from::<C>(old(local)@, local@, kept),
                good == (can_converge::<C>(
                    peer,
                    Seq::<EntryView<Block>>::empty(),
                    old(local)@,
                    remote@,
                ) && peer.block_number + 1 == remote@.len()),
                good && attempt > 0 ==> local@ == remote@,
                fresh == follows_seed::<C>(peer, old(local)@, remote@),
                fresh && attempt > 0 ==> local@ == remote@,
            decreases MAX_ATTEMPTS - attempt,
        {
            let mut flow: SyncFlow<C> = SyncFlow::new(peer);
            assert(flow.downloader.pool() =~= Seq::<EntryView<Block>>::empty());
            let ghost before = local@;
            let _ = Self::sync_block_inner(&mut flow, local, remote, now);
            proof {
                if good && attempt == 0 {
                    assert(remote@.take(peer.block_number + 1) =~= remote@);
                }
                if fresh && attempt == 0 {
                    if remote@.len() == 1 {
                        assert(chains_agree(before, remote@, 0));
                        assert(before.take(1) =~= before);
                        assert(remote@.take(1) =~= remote@);
                    } else {
                        assert(remote@.take(peer.block_number + 1) =~= remote@);
                    }
                }
                let grown = choose|k: int| grown_from::<C>(before, local@, k);
                lemma_growth_composes::<C>(old(local)@, before, local@, kept, grown);
                kept = if kept < grown {
                    kept
                } else {
                    grown
                };
            }
            if Self::heads_agree(local, remote) {
                return true;
            }
            attempt = attempt + 1;
        }
        Self::heads_agree(local, remote)
    }

    /// Runs one session of `flow` to its end: synchronizes `local` against
    /// the peer of the flow, whose chain is `remote`, at time `now`.
    ///
    /// Returns how the session ended, or `None` if it never began because
    /// the local chain holds no block.  Where the ancestor lies below the
    /// local head, the local chain is rolled back to it before the peer's
    /// blocks are applied.  Blocks that arrive before their turn stay
    /// buffered.
    #[verifier::rlimit(80)]
    pub fn sync_block_inner<C: Consensus>(
        flow: &mut SyncFlow<C>,
        local: &mut MemChain,
        remote: &MemChain,
        now: u64,
    ) -> (end: Option<SessionEnd>)
        requires
            old(flow).wf(),
            !active(old(flow).session),
            old(local).wf(),
        ensures
            final(flow).wf(),
            final(local).wf(),
            final(flow).peer_info == old(flow).peer_info,
            !active(final(flow).session),
            old(local)@.len() == 0 <==> end is None,
            end is None ==> final(local)@ == old(local)@ && final(flow).downloader.pool() == old(flow).downloader.pool(),
            end is Some ==> end == (match final(flow).session {
                Session::Converged => Some(SessionEnd::Converged),
                Session::Failed(reason) => Some(SessionEnd::Failed(reason)),
                Session::Superseded => Some(SessionEnd::Superseded),
                _ => None,
            }),
            old(local)@.len() > 0 && old(flow).peer_info.block_number < old(local)@.len() ==> end
                == Some(SessionEnd::Converged) && final(local)@ == old(local)@ && final(flow).downloader.pool() == old(flow).downloader.pool(),
            compatible(old(local)@, remote@) && old(local)@.len() <= old(flow).peer_info.block_number && old(flow).downloader.pool().len() == 0 ==> end == Some(
                session_result::<C>(old(flow).peer_info, old(local)@, remote@).0,
            ) && final(local)@ == session_result::<C>(old(flow).peer_info, old(local)@, remote@).1
                && final(flow).downloader.pool().len() == 0,
            can_converge::<C>(
                old(flow).peer_info,
                old(flow).downloader.pool(),
                old(local)@,
                remote@,
            ) ==> end == Some(SessionEnd::Converged) && final(local)@ == remote@.take(
                old(flow).peer_info.block_number + 1,
            ) && final(flow).downloader.pool().len() == 0,
            exists|kept: int| #[trigger] grown_from::<C>(old(local)@, final(local)@, kept),
    {
        let peer = flow.peer_info;
        let ghost regular = compatible(local@, remote@) && local@.len() <= peer.block_number
            && flow.downloader.pool().len() == 0;
        let ghost expected = session_result::<C>(peer, local@, remote@);
        let ghost agree = |h: BlockNumber| chains_agree(old(local)@, remote@, h);
        let ghost reach = if peer.block_number < remote@.len() {
            peer.block_number as int
        } else {
            remote@.len() - 1
        };
        proof {
            if can_converge::<C>(peer, flow.downloader.pool(), local@, remote@) {
                lemma_converging_session::<C>(peer, flow.downloader.pool(), local@, remote@);
            }
        }
        let head = match local.master_head_header() {
            None => {
                assert(grown_from::<C>(local@, local@, 0));
                return None;
            },
            Some(header) => header.number,
        };
        assert(local@.take(local@.len() as int) == local@);
        assert(grown_from::<C>(local@, local@, local@.len() as int));
        assert(head == local@.len() - 1) by {
            assert(local@.last().header.number == local@.len() - 1);
        }
        let begin = match flow.step(SyncEvent::Start { head: Some(head) }) {
            SyncAction::FindAncestor { begin_number, allow_full_scan: _ } => begin_number,
            _ => {
                return flow.ended();
            },
        };
        let found = find_ancestor_header(local, remote, begin, true);
        let ghost stop = first_refused::<C>(remote@, found.number as int, reach);
        proof {
            lemma_search_is_sound(initial_state(begin, true), agree);
            if regular {
                assert(agree(0));
                assert(agree(found.number));
                assert(local@.take(found.number + 1) == remote@.take(found.number + 1));
            }
        }
        let mut after = match flow.step(SyncEvent::AncestorFound(found)) {
            SyncAction::FetchBatch { after } => after,
            _ => {
                return flow.ended();
            },
        };
        local.rollback_to(after);
        let ghost kept = after + 1;
        assert(local@.take(kept) == local@);
        assert(old(local)@.take(kept) == local@);
        loop
            invariant
                0 < kept <= local@.len(),
                grown_from::<C>(old(local)@, local@, kept),
                regular == (compatible(old(local)@, remote@) && old(local)@.len()
                    <= peer.block_number && old(flow).downloader.pool().len() == 0),
                expected == session_result::<C>(peer, old(local)@, remote@),
                reach == (if peer.block_number < remote@.len() {
                    peer.block_number as int
                } else {
                    remote@.len() - 1
                }),
                regular ==> expected == (if stop <= reach {
                    (SessionEnd::Failed(FailReason::VerificationFailed), remote@.take(stop))
                } else if reach == peer.block_number {
                    (SessionEnd::Converged, remote@.take(reach + 1))
                } else {
                    (SessionEnd::Failed(FailReason::FetchError), remote@.take(reach + 1))
                }),
                regular ==> local@ == remote@.take(after + 1) && flow.downloader.pool().len() == 0
                    && after <= reach && first_refused::<C>(remote@, after as int, reach) == stop,
                can_converge::<C>(
                    old(flow).peer_info,
                    old(flow).downloader.pool(),
                    old(local)@,
                    remote@,
                ) ==> regular && expected == (
                    SessionEnd::Converged,
                    remote@.take(peer.block_number + 1),
                ),
                flow.wf(),
                local.wf(),
                flow.peer_info == peer,
                peer == old(flow).peer_info,
                old(local)@.len() > 0,
                peer.block_number >= old(local)@.len(),
                flow.session is Fetching,
                flow.session->Fetching_cursor == after,
                local@.len() > 0,
            decreases distance(peer, flow.session).1, distance(peer, flow.session).2,
        {
            let batch = fetch_batch(remote, after, peer.block_number);
            let ghost last = batch_end(remote@.len(), after, peer.block_number);
            let ghost run = zipped(batch.headers@, batch.bodies@, batch.infos@);
            let ghost buffered = flow.downloader.pool();
            let ghost found_in_run = first_refused::<C>(remote@, after as int, last);
            proof {
                if regular {
                    assert(after <= last <= reach);
                    lemma_first_refused::<C>(remote@, after as int, last);
                    lemma_first_refused_in_two_steps::<C>(remote@, after as int, last, reach);
                    lemma_first_refused::<C>(remote@, last, reach);
                    if last > after {
                        lemma_batch_of_chain_is_contiguous(batch, remote@, after, last);
                        lemma_ascending_run_is_held_in_order(expiry_from(now), peer, run);
                        assert(buffered =~= Seq::<EntryView<Block>>::empty());
                        assert(run.len() == last - after);
                        lemma_run_is_applied_until_refused::<C>(remote@, after + 1, run);
                        let held = entries_of(expiry_from(now), peer, run);
                        assert(held.take(held.len() as int) =~= held);
                        assert(held.skip(held.len() as int).len() == 0);
                        assert(batch.headers@[0]@ == remote@[after + 1].header);
                        assert(remote@[after + 1].header.number == after + 1);
                    }
                }
            }
            let first = if batch.headers.len() == 0 {
                None
            } else {
                Some(batch.headers[0].number)
            };
            let event = if let Some(fault) = check_batch_start(after, first) {
                SyncEvent::Fault(fault)
            } else {
                match flow.downloader.do_blocks_at(
                    now,
                    peer,
                    batch.headers,
                    batch.bodies,
                    batch.infos,
                ) {
                    Err(_) => SyncEvent::Fault(Fault::NonContiguousBatch),
                    Ok(()) => {
                        let held = flow.downloader.pending();
                        let ready = flow.downloader.take_ready(held);
                        let ghost chain_before = local@;
                        let out = flow.processor.process(local, ready);
                        proof {
                            crate::process::lemma_process_extends::<C>(chain_before, ready@);
                            assert(local@.take(kept) =~= local@.take(chain_before.len() as int).take(
                                kept,
                            ));
                            assert forall|i: int| kept <= i < local@.len() implies C::accepts(
                                (#[trigger] local@[i]).header,
                            ) by {
                                if i < chain_before.len() {
                                    assert(local@.take(chain_before.len() as int)[i]
                                        == chain_before[i]);
                                }
                            }
                            assert(chain_before.take(kept) == old(local)@.take(kept));
                            assert(grown_from::<C>(old(local)@, local@, kept));
                        }
                        let status = out.status;
                        match status {
                            ProcessStatus::Deferred => {
                                flow.downloader.put_back(now, peer, out.leftover);
                            },
                            _ => {},
                        }
                        let head = match local.master_head_header() {
                            Some(header) => Some(header.number),
                            None => None,
                        };
                        batch_event(after, first, status, head)
                    },
                }
            };
            proof {
                lemma_session_makes_progress(peer, flow.session, event);
                assert(grown_from::<C>(old(local)@, local@, kept));
                if regular {
                    if last == after {
                        assert(event == SyncEvent::Fault(Fault::PeerError));
                    } else if found_in_run <= last {
                        assert(event == SyncEvent::Fault(Fault::VerificationFailed));
                        assert(local@ == remote@.take(stop));
                    } else {
                        assert(local@ == remote@.take(last + 1));
                        assert(local@.last() == remote@[last]);
                        assert(event == SyncEvent::BatchApplied { new_head: last as u64 });
                    }
                }
            }
            match flow.step(event) {
                SyncAction::FetchBatch { after: cursor } => {
                    after = cursor;
                },
                _ => {
                    return flow.ended();
                },
            }
        }
    }
}

} // verus!
