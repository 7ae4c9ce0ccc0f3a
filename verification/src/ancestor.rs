//! Discovery of the common ancestor of the local chain and a peer's chain.
//!
//! The search asks, height by height, whether the two chains hold the same
//! block there.  It starts at the local head and steps down, doubling the
//! step after each disagreement, until the chains agree.  A full scan then
//! walks up again, one height at a time, until they disagree.
//!
//! The search itself asks nothing of anybody: it names the height to compare
//! next and is told the answer, so the caller may fetch the peer's header
//! however it likes.

use vstd::prelude::*;
use crate::block::BlockNumber;
use crate::block::BlockView;
use crate::chain::MemChain;
use crate::chain::id_at;

verus! {

/// Where two chains were found to part.
#[derive(Clone, Copy, Debug, PartialEq, Eq, Structural)]
pub struct Ancestor {
    /// Height of the block taken as the common ancestor.
    pub number: BlockNumber,
    /// Whether the chains agree at that height.  When they agree nowhere,
    /// the ancestor is height zero and the peer's chain counts as unrelated.
    pub related: bool,
}

/// What the search is doing.
#[derive(Clone, Copy, Debug, PartialEq, Eq, Structural)]
pub enum Phase {
    /// Stepping down from the start, looking for a height of agreement.
    Descending,
    /// Walking up from a height of agreement, looking for the first
    /// disagreement.
    Ascending,
    /// Done.
    Finished,
}

/// The state of a search.
#[derive(Clone, Copy, Debug, PartialEq, Eq, Structural)]
pub struct SearchState {
    /// Height at which the search began; no higher height is ever asked for.
    pub begin: BlockNumber,
    pub full_scan: bool,
    pub phase: Phase,
    /// Descending: the height to compare next.  Ascending: the highest
    /// height known to agree.  Finished: the ancestor's height.
    pub candidate: BlockNumber,
    /// Descending: how far to step down after a disagreement.
    pub step: u64,
    /// Finished: whether a height of agreement was found.
    pub related: bool,
}

/// What every state of a search satisfies.
pub open spec fn valid_state(st: SearchState) -> bool {
    &&& st.candidate <= st.begin
    &&& st.step >= 1
    &&& st.phase == Phase::Ascending ==> st.full_scan && st.related && st.candidate < st.begin
}

/// The state in which a search from height `begin` starts.
pub open spec fn initial_state(begin: BlockNumber, full_scan: bool) -> SearchState {
    SearchState {
        begin,
        full_scan,
        phase: Phase::Descending,
        candidate: begin,
        step: 1,
        related: false,
    }
}

/// The height that has to be compared next, or `None` when the search is done.
pub open spec fn probe_of(st: SearchState) -> Option<BlockNumber> {
    match st.phase {
        Phase::Descending => Some(st.candidate),
        Phase::Ascending => Some((st.candidate + 1) as u64),
        Phase::Finished => None,
    }
}

/// Twice `step`, or `u64::MAX` where that does not fit.
pub open spec fn doubled(step: u64) -> u64 {
    if step > u64::MAX / 2 {
        u64::MAX
    } else {
        (step * 2) as u64
    }
}

/// The state after the chains were found to agree, or not, at `probe_of(st)`.
pub open spec fn advance(st: SearchState, agrees: bool) -> SearchState {
    match st.phase {
        Phase::Descending => {
            if agrees {
                if st.full_scan && st.candidate < st.begin {
                    SearchState { phase: Phase::Ascending, related: true, ..st }
                } else {
                    SearchState { phase: Phase::Finished, related: true, ..st }
                }
            } else if st.candidate == 0 {
                SearchState { phase: Phase::Finished, related: false, ..st }
            } else {
                let down = if st.step < st.candidate {
                    st.step
                } else {
                    st.candidate
                };
                SearchState {
                    candidate: (st.candidate - down) as u64,
                    step: doubled(st.step),
                    ..st
                }
            }
        },
        Phase::Ascending => {
            if agrees {
                if st.candidate + 1 < st.begin {
                    SearchState { candidate: (st.candidate + 1) as u64, ..st }
                } else {
                    SearchState {
                        phase: Phase::Finished,
                        candidate: (st.candidate + 1) as u64,
                        ..st
                    }
                }
            } else {
                SearchState { phase: Phase::Finished, ..st }
            }
        },
        Phase::Finished => st,
    }
}

/// How many phases lie ahead of `st`.
pub open spec fn phases_left(st: SearchState) -> nat {
    match st.phase {
        Phase::Descending => 2,
        Phase::Ascending => 1,
        Phase::Finished => 0,
    }
}

/// How many comparisons the current phase of `st` can still take at most.
pub open spec fn steps_left(st: SearchState) -> nat {
    match st.phase {
        Phase::Descending => st.candidate as nat,
        Phase::Ascending => (st.begin - st.candidate) as nat,
        Phase::Finished => 0,
    }
}

/// The result of running the search from `st` when `agree` tells, for each
/// height, whether the chains hold the same block there.
pub open spec fn outcome(st: SearchState, agree: spec_fn(BlockNumber) -> bool) -> Ancestor
    recommends
        valid_state(st),
    decreases phases_left(st), steps_left(st),
{
    if !valid_state(st) {
        Ancestor { number: st.candidate, related: st.related }
    } else {
        match probe_of(st) {
            None => Ancestor { number: st.candidate, related: st.related },
            Some(h) => outcome(advance(st, agree(h)), agree),
        }
    }
}

/// The number of comparisons that the search makes from `st` on, when
/// `agree` tells where the chains hold the same block.
pub open spec fn probes(st: SearchState, agree: spec_fn(BlockNumber) -> bool) -> nat
    recommends
        valid_state(st),
    decreases phases_left(st), steps_left(st),
{
    if !valid_state(st) {
        0
    } else {
        match probe_of(st) {
            None => 0,
            Some(h) => 1 + probes(advance(st, agree(h)), agree),
        }
    }
}

/// A search in progress.
pub struct AncestorSearch {
    state: SearchState,
}

impl View for AncestorSearch {
    type V = SearchState;

    closed spec fn view(&self) -> SearchState {
        self.state
    }
}

impl AncestorSearch {
    /// Begins a search at height `begin_number`.  With `allow_full_scan` the
    /// search goes on, after the first agreement, until it has seen the
    /// chains part.
    pub fn start(begin_number: BlockNumber, allow_full_scan: bool) -> (search: AncestorSearch)
        ensures
            search@ == initial_state(begin_number, allow_full_scan),
            valid_state(search@),
    {
        AncestorSearch {
            state: SearchState {
                begin: begin_number,
                full_scan: allow_full_scan,
                phase: Phase::Descending,
                candidate: begin_number,
                step: 1,
                related: false,
            },
        }
    }

    /// The height at which the two chains have to be compared next, or
    /// `None` when the search is done.
    pub fn next_probe(&self) -> (probe: Option<BlockNumber>)
        requires
            valid_state(self@),
        ensures
            probe == probe_of(self@),
    {
        match self.state.phase {
            Phase::Descending => Some(self.state.candidate),
            Phase::Ascending => Some(self.state.candidate + 1),
            Phase::Finished => None,
        }
    }

    /// Takes the answer for the height that `next_probe` named: whether the
    /// chains hold the same block there.  A peer that has no block at that
    /// height disagrees.
    pub fn record(&mut self, agrees: bool)
        requires
            valid_state(old(self)@),
        ensures
            final(self)@ == advance(old(self)@, agrees),
            valid_state(final(self)@),
    {
        let st = self.state;
        match st.phase {
            Phase::Descending => {
                if agrees {
                    self.state.related = true;
                    if st.full_scan && st.candidate < st.begin {
                        self.state.phase = Phase::Ascending;
                    } else {
                        self.state.phase = Phase::Finished;
                    }
                } else if st.candidate == 0 {
                    self.state.related = false;
                    self.state.phase = Phase::Finished;
                } else {
                    let down = if st.step < st.candidate {
                        st.step
                    } else {
                        st.candidate
                    };
                    self.state.candidate = st.candidate - down;
                    self.state.step = if st.step > u64::MAX / 2 {
                        u64::MAX
                    } else {
                        st.step * 2
                    };
                }
            },
            Phase::Ascending => {
                if agrees {
                    self.state.candidate = st.candidate + 1;
                    if st.candidate + 1 >= st.begin {
                        self.state.phase = Phase::Finished;
                    }
                } else {
                    self.state.phase = Phase::Finished;
                }
            },
            Phase::Finished => {},
        }
    }

    /// The ancestor, once the search is done.
    pub fn result(&self) -> (found: Option<Ancestor>)
        ensures
            found == (match self@.phase {
                Phase::Finished => Some(
                    Ancestor { number: self@.candidate, related: self@.related },
                ),
                _ => None,
            }),
    {
        match self.state.phase {
            Phase::Finished => Some(
                Ancestor { number: self.state.candidate, related: self.state.related },
            ),
            _ => None,
        }
    }
}

/// The two chains hold the same block at height `number`.
pub open spec fn chains_agree(local: Seq<BlockView>, peer: Seq<BlockView>, number: BlockNumber) -> bool {
    id_at(local, number) is Some && id_at(local, number) == id_at(peer, number)
}

/// Finds the common ancestor of `local` and `peer` at or below height
/// `begin_number`.
///
/// By default the result is the first height of agreement that the descent
/// meets.  With `allow_full_scan` it is the height below the first
/// disagreement above that one, so for chains that agree up to some height
/// and nowhere above it, it is that height.  If the chains agree at no
/// height that the descent meets, height zero is returned and marked
/// unrelated.
pub fn find_ancestor_header(
    local: &MemChain,
    peer: &MemChain,
    begin_number: BlockNumber,
    allow_full_scan: bool,
) -> (found: Ancestor)
    ensures
        found == outcome(
            initial_state(begin_number, allow_full_scan),
            |h: BlockNumber| chains_agree(local@, peer@, h),
        ),
{
    let ghost agree = |h: BlockNumber| chains_agree(local@, peer@, h);
    let mut search = AncestorSearch::start(begin_number, allow_full_scan);
    loop
        invariant
            valid_state(search@),
            agree == |h: BlockNumber| chains_agree(local@, peer@, h),
            outcome(search@, agree) == outcome(
                initial_state(begin_number, allow_full_scan),
                agree,
            ),
        decreases phases_left(search@), steps_left(search@),
    {
        match search.next_probe() {
            None => {
                match search.result() {
                    Some(found) => {
                        return found;
                    },
                    None => {
                        return vstd::pervasive::unreached();
                    },
                }
            },
            Some(number) => {
                let agrees = match local.header_id_at(number) {
                    Some(ours) => match peer.header_id_at(number) {
                        Some(theirs) => ours.equals(&theirs),
                        None => false,
                    },
                    None => false,
                };
                assert(agrees == agree(number));
                search.record(agrees);
            },
        }
    }
}

} // verus!
