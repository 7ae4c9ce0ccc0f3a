//! What the ancestor search finds, for every pair of chains.

use vstd::prelude::*;
use crate::ancestor::Ancestor;
use crate::ancestor::Phase;
use crate::ancestor::SearchState;
use crate::ancestor::advance;
use crate::ancestor::chains_agree;
use crate::ancestor::initial_state;
use crate::ancestor::outcome;
use crate::ancestor::phases_left;
use crate::ancestor::probe_of;
use crate::ancestor::steps_left;
use crate::ancestor::probes;
use crate::ancestor::valid_state;
use vstd::arithmetic::power2::lemma2_to64;
use vstd::arithmetic::power2::lemma_pow2_pos;
use vstd::arithmetic::power2::lemma_pow2_strictly_increases;
use vstd::arithmetic::power2::lemma_pow2_unfold;
use vstd::arithmetic::power2::pow2;
use crate::block::BlockNumber;
use crate::block::BlockView;

verus! {

/// Soundness, whatever the chains are: the search never names a height
/// above its start; a related ancestor is a height of agreement; an
/// unrelated one is height zero, where the chains disagree; and after a full
/// scan the chains disagree just above a related ancestor, unless that is
/// the start itself.
pub proof fn lemma_search_is_sound(st: SearchState, agree: spec_fn(BlockNumber) -> bool)
    requires
        valid_state(st),
        st.phase == Phase::Ascending ==> agree(st.candidate),
        st.phase == Phase::Finished && st.related ==> agree(st.candidate) && (st.full_scan
            && st.candidate < st.begin ==> !agree((st.candidate + 1) as u64)),
        st.phase == Phase::Finished && !st.related ==> st.candidate == 0 && !agree(0),
    ensures
        ({
            let found = outcome(st, agree);
            &&& found.number <= st.begin
            &&& found.related ==> agree(found.number)
            &&& !found.related ==> found.number == 0 && !agree(0)
            &&& found.related && st.full_scan && found.number < st.begin ==> !agree(
                (found.number + 1) as u64,
            )
        }),
    decreases phases_left(st), steps_left(st),
{
    match probe_of(st) {
        None => {},
        Some(h) => {
            lemma_search_is_sound(advance(st, agree(h)), agree);
        },
    }
}

/// Identical chains: where the chains agree at the start, the search ends
/// there at once.
pub proof fn lemma_agreement_at_start(
    begin: BlockNumber,
    full_scan: bool,
    agree: spec_fn(BlockNumber) -> bool,
)
    requires
        agree(begin),
    ensures
        outcome(initial_state(begin, full_scan), agree) == (Ancestor { number: begin, related: true }),
{
    let st = initial_state(begin, full_scan);
    let next = advance(st, true);
    assert(outcome(st, agree) == outcome(next, agree));
    assert(next.phase == Phase::Finished);
}

/// The way up: from a height of agreement at or below `fork`, a full scan
/// ends at `fork`, or at the start where that is lower.
proof fn lemma_ascent_reaches_fork(
    st: SearchState,
    fork: BlockNumber,
    agree: spec_fn(BlockNumber) -> bool,
)
    requires
        valid_state(st),
        st.phase == Phase::Ascending,
        st.candidate <= fork,
        forall|h: BlockNumber| h <= st.begin ==> (#[trigger] agree(h) <==> h <= fork),
    ensures
        outcome(st, agree) == (Ancestor {
            number: if fork < st.begin {
                fork
            } else {
                st.begin
            },
            related: true,
        }),
    decreases st.begin - st.candidate,
{
    let h = (st.candidate + 1) as u64;
    let next = advance(st, agree(h));
    assert(outcome(st, agree) == outcome(next, agree));
    if agree(h) {
        if next.phase == Phase::Ascending {
            lemma_ascent_reaches_fork(next, fork, agree);
        } else {
            assert(outcome(next, agree) == Ancestor { number: next.candidate, related: true });
        }
    } else {
        assert(outcome(next, agree) == Ancestor { number: next.candidate, related: true });
    }
}

/// The way down: with a full scan, the search ends at `fork`, or at the
/// start where that is lower.
proof fn lemma_descent_reaches_fork(
    st: SearchState,
    fork: BlockNumber,
    agree: spec_fn(BlockNumber) -> bool,
)
    requires
        valid_state(st),
        st.phase == Phase::Descending,
        st.full_scan,
        forall|h: BlockNumber| h <= st.begin ==> (#[trigger] agree(h) <==> h <= fork),
    ensures
        outcome(st, agree) == (Ancestor {
            number: if fork < st.begin {
                fork
            } else {
                st.begin
            },
            related: true,
        }),
    decreases st.candidate,
{
    let h = st.candidate;
    let next = advance(st, agree(h));
    assert(outcome(st, agree) == outcome(next, agree));
    if agree(h) {
        if next.phase == Phase::Ascending {
            lemma_ascent_reaches_fork(next, fork, agree);
        } else {
            assert(outcome(next, agree) == Ancestor { number: next.candidate, related: true });
        }
    } else {
        assert(st.candidate > 0);
        lemma_descent_reaches_fork(next, fork, agree);
    }
}

/// Forked chains: where the chains agree at every height up to `fork` and at
/// none above it, a full scan from `begin` ends exactly at `fork`, or at
/// `begin` where that is lower.
pub proof fn lemma_full_scan_finds_fork(
    begin: BlockNumber,
    fork: BlockNumber,
    agree: spec_fn(BlockNumber) -> bool,
)
    requires
        forall|h: BlockNumber| h <= begin ==> (#[trigger] agree(h) <==> h <= fork),
    ensures
        outcome(initial_state(begin, true), agree) == (Ancestor {
            number: if fork < begin {
                fork
            } else {
                begin
            },
            related: true,
        }),
{
    lemma_descent_reaches_fork(initial_state(begin, true), fork, agree);
}

/// Without a full scan the search still ends at a common block: a height of
/// agreement, at or below `fork`.
pub proof fn lemma_default_scan_finds_common_block(
    begin: BlockNumber,
    fork: BlockNumber,
    agree: spec_fn(BlockNumber) -> bool,
)
    requires
        forall|h: BlockNumber| h <= begin ==> (#[trigger] agree(h) <==> h <= fork),
    ensures
        ({
            let found = outcome(initial_state(begin, false), agree);
            found.related && found.number <= fork && found.number <= begin && agree(found.number)
        }),
{
    lemma_search_is_sound(initial_state(begin, false), agree);
    assert(agree(0));
}

/// Unrelated chains: where the chains agree at no height up to `begin`, the
/// search ends at height zero and says so.
pub proof fn lemma_no_agreement_is_unrelated(
    begin: BlockNumber,
    full_scan: bool,
    agree: spec_fn(BlockNumber) -> bool,
)
    requires
        forall|h: BlockNumber| h <= begin ==> !#[trigger] agree(h),
    ensures
        outcome(initial_state(begin, full_scan), agree) == (Ancestor { number: 0, related: false }),
{
    let found = outcome(initial_state(begin, full_scan), agree);
    lemma_search_is_sound(initial_state(begin, full_scan), agree);
    if found.related {
        assert(agree(found.number));
    }
}

/// The cost of the way down, after `k` disagreements.
proof fn lemma_descent_cost(st: SearchState, k: nat, agree: spec_fn(BlockNumber) -> bool)
    requires
        valid_state(st),
        st.phase == Phase::Descending,
        !st.full_scan,
        (st.step == pow2(k) && st.candidate + pow2(k) == st.begin + 1) || (st.candidate == 0 && k
            >= 1 && pow2((k - 1) as nat) <= st.begin),
    ensures
        probes(st, agree) >= 1,
        pow2((k + probes(st, agree) - 1) as nat) <= 2 * (st.begin - outcome(st, agree).number) + 1,
    decreases st.candidate,
{
    let h = st.candidate;
    let next = advance(st, agree(h));
    assert(probes(st, agree) == 1 + probes(next, agree));
    assert(outcome(st, agree) == outcome(next, agree));
    lemma_pow2_pos(k);
    lemma_pow2_unfold(k + 1);
    if k >= 1 {
        lemma_pow2_unfold(k);
    }
    if next.phase == Phase::Finished {
        assert(probes(next, agree) == 0);
        assert(outcome(next, agree).number == next.candidate);
    } else {
        assert(!agree(h) && st.candidate > 0);
        if st.step < st.candidate {
            assert(st.step == pow2(k));
            assert(2 * pow2(k) < st.begin + 1);
            assert(next.step == pow2(k + 1));
        } else {
            assert(next.candidate == 0);
        }
        lemma_descent_cost(next, k + 1, agree);
    }
}

/// Logarithmic cost: without a full scan, the number of comparisons grows
/// with the logarithm of the distance between the start and the ancestor
/// found.  With `n` comparisons made, `2^(n-1)` is at most twice that
/// distance plus one; so no search takes more than 65.
pub proof fn lemma_default_scan_is_logarithmic(
    begin: BlockNumber,
    agree: spec_fn(BlockNumber) -> bool,
)
    ensures
        ({
            let n = probes(initial_state(begin, false), agree);
            let found = outcome(initial_state(begin, false), agree);
            &&& 1 <= n <= 65
            &&& pow2((n - 1) as nat) <= 2 * (begin - found.number) + 1
        }),
{
    let st = initial_state(begin, false);
    let n = probes(st, agree);
    lemma2_to64();
    lemma_descent_cost(st, 0, agree);
    lemma_search_is_sound(st, agree);
    if n > 65 {
        lemma_pow2_unfold(65);
        if n > 66 {
            lemma_pow2_strictly_increases(65, (n - 1) as nat);
        }
    }
}

/// Two chains with one history up to height `begin`: the ancestor is `begin`.
pub proof fn lemma_identical_chains(
    local: Seq<BlockView>,
    peer: Seq<BlockView>,
    begin: BlockNumber,
    full_scan: bool,
)
    requires
        begin < local.len(),
        begin < peer.len(),
        local[begin as int].header.id == peer[begin as int].header.id,
    ensures
        outcome(initial_state(begin, full_scan), |h: BlockNumber| chains_agree(local, peer, h)) == (
        Ancestor { number: begin, related: true }),
{
    lemma_agreement_at_start(begin, full_scan, |h: BlockNumber| chains_agree(local, peer, h));
}

/// Two chains that share their history up to height `fork` and hold
/// different blocks at every height above it: a full scan from `begin`, the
/// local head or lower, finds exactly `fork`.
pub proof fn lemma_forked_chains(
    local: Seq<BlockView>,
    peer: Seq<BlockView>,
    begin: BlockNumber,
    fork: BlockNumber,
)
    requires
        fork < begin < local.len(),
        fork < peer.len(),
        forall|h: int| 0 <= h <= fork ==> (#[trigger] local[h]).header.id == peer[h].header.id,
        forall|h: int|
            fork < h <= begin && h < peer.len() ==> (#[trigger] local[h]).header.id
                != peer[h].header.id,
    ensures
        outcome(initial_state(begin, true), |h: BlockNumber| chains_agree(local, peer, h)) == (
        Ancestor { number: fork, related: true }),
{
    let agree = |h: BlockNumber| chains_agree(local, peer, h);
    assert forall|h: BlockNumber| h <= begin implies (#[trigger] agree(h) <==> h <= fork) by {
        if h <= fork {
            assert(local[h as int].header.id == peer[h as int].header.id);
        } else if h < peer.len() {
            assert(local[h as int].header.id != peer[h as int].header.id);
        }
    }
    lemma_full_scan_finds_fork(begin, fork, agree);
}

} // verus!
