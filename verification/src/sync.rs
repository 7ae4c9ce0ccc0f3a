//! One synchronization session against one peer, as a state machine, and
//! the routing of the coordinator's messages.
//!
//! The session decides; it does not act.  Each event that its owner reports
//! moves it to a next state and yields the action to perform: look for the
//! common ancestor, fetch the next batch, or report how the session ended.

use vstd::prelude::*;
use crate::ancestor::Ancestor;
use crate::block::BlockNumber;
use crate::block::PeerInfo;
use crate::consensus::Consensus;
use crate::download::Downloader;
use crate::order::Order;
use crate::process::ProcessStatus;
use crate::process::Processor;

verus! {

/// How often a step of a session is tried before the session fails.
pub const MAX_ATTEMPTS: u32 = 3;

/// Why a session failed.
#[derive(Clone, Copy, Debug, PartialEq, Eq, Structural)]
pub enum FailReason {
    /// The peer has disconnected.  Nothing is wrong with either chain; the
    /// next round may pick another peer.
    PeerUnavailable,
    /// The peer's chain shares no block with ours, not even at height zero.
    AncestorNotFound,
    /// Requests to the peer failed, timed out or brought blocks that do not
    /// chain from where we stand, more often than is tolerated.
    FetchError,
    /// A fetched header failed consensus verification.
    VerificationFailed,
}

/// How a session ended.
#[derive(Clone, Copy, Debug, PartialEq, Eq, Structural)]
pub enum SessionEnd {
    /// The local head has reached the head that the peer reported.
    Converged,
    Failed(FailReason),
    /// A peer with a higher score appeared; this session gives way.
    Superseded,
}

/// The state of a session.
#[derive(Clone, Copy, Debug, PartialEq, Eq, Structural)]
pub enum Session {
    /// Nothing is under way.
    Idle,
    /// The common ancestor is being looked for, from height `begin` down.
    FindingAncestor { begin: BlockNumber, attempts: u32 },
    /// Blocks above height `cursor` are being fetched and applied.
    Fetching { cursor: BlockNumber, attempts: u32 },
    Converged,
    Failed(FailReason),
    Superseded,
}

/// What went wrong with a request.
#[derive(Clone, Copy, Debug, PartialEq, Eq, Structural)]
pub enum Fault {
    /// The peer did not answer in time.
    Timeout,
    /// The peer answered with an error, or has gone.
    PeerError,
    /// The fetched headers do not chain from the block asked for.
    NonContiguousBatch,
    /// A fetched header failed consensus verification.
    VerificationFailed,
}

/// What the owner of a session reports to it.
#[derive(Clone, Copy, Debug)]
pub enum SyncEvent {
    /// Synchronization is asked for; `head` is the number of the local head,
    /// or `None` for a chain without blocks.
    Start { head: Option<BlockNumber> },
    /// The search for the common ancestor has ended.
    AncestorFound(Ancestor),
    /// A batch was fetched and handed to the processor; `new_head` is the
    /// number of the local head afterwards.
    BatchApplied { new_head: BlockNumber },
    /// A request failed.
    Fault(Fault),
    /// Another peer was seen.
    PeerAppeared(PeerInfo),
    /// The peer of the session has disconnected.
    PeerLost,
}

/// What the owner of a session has to do next.
#[derive(Clone, Copy, Debug, PartialEq, Eq, Structural)]
pub enum SyncAction {
    /// Nothing.
    Wait,
    /// Look for the common ancestor at or below `begin_number`.
    FindAncestor { begin_number: BlockNumber, allow_full_scan: bool },
    /// Fetch the blocks that follow height `after`, and apply them.
    FetchBatch { after: BlockNumber },
    /// The session has ended.
    Report(SessionEnd),
}

/// The session is under way.
pub open spec fn active(state: Session) -> bool {
    state is FindingAncestor || state is Fetching
}

/// What every state of a session against `peer` satisfies.
pub open spec fn valid_session(peer: PeerInfo, state: Session) -> bool {
    match state {
        Session::FindingAncestor { begin, attempts } => begin < peer.block_number && attempts
            < MAX_ATTEMPTS,
        Session::Fetching { cursor, attempts } => cursor < peer.block_number && attempts
            < MAX_ATTEMPTS,
        _ => true,
    }
}

/// The step that follows a failed request in `state`: once more, or failure.
pub open spec fn after_fault(state: Session) -> (Session, SyncAction) {
    match state {
        Session::FindingAncestor { begin, attempts } => {
            if attempts + 1 < MAX_ATTEMPTS {
                (
                    Session::FindingAncestor { begin, attempts: (attempts + 1) as u32 },
                    SyncAction::FindAncestor { begin_number: begin, allow_full_scan: true },
                )
            } else {
                (
                    Session::Failed(FailReason::FetchError),
                    SyncAction::Report(SessionEnd::Failed(FailReason::FetchError)),
                )
            }
        },
        Session::Fetching { cursor, attempts } => {
            if attempts + 1 < MAX_ATTEMPTS {
                (
                    Session::Fetching { cursor, attempts: (attempts + 1) as u32 },
                    SyncAction::FetchBatch { after: cursor },
                )
            } else {
                (
                    Session::Failed(FailReason::FetchError),
                    SyncAction::Report(SessionEnd::Failed(FailReason::FetchError)),
                )
            }
        },
        _ => (state, SyncAction::Wait),
    }
}

/// The step that a request to synchronize takes when nothing is under way.
pub open spec fn on_start(peer: PeerInfo, state: Session, head: Option<BlockNumber>) -> (
    Session,
    SyncAction,
) {
    match head {
        None => (Session::Idle, SyncAction::Wait),
        Some(h) => {
            if peer.block_number <= h {
                (Session::Converged, SyncAction::Report(SessionEnd::Converged))
            } else {
                (
                    Session::FindingAncestor { begin: h, attempts: 0 },
                    SyncAction::FindAncestor { begin_number: h, allow_full_scan: true },
                )
            }
        },
    }
}

/// The state that follows `state` on `event`, in a session against `peer`,
/// and the action to perform.
pub open spec fn next(peer: PeerInfo, state: Session, event: SyncEvent) -> (Session, SyncAction) {
    match event {
        SyncEvent::Start { head } => {
            if active(state) {
                (state, SyncAction::Wait)
            } else {
                on_start(peer, state, head)
            }
        },
        SyncEvent::AncestorFound(found) => match state {
            Session::FindingAncestor { begin, attempts } => {
                if !found.related || found.number > begin {
                    (
                        Session::Failed(FailReason::AncestorNotFound),
                        SyncAction::Report(SessionEnd::Failed(FailReason::AncestorNotFound)),
                    )
                } else {
                    (
                        Session::Fetching { cursor: found.number, attempts: 0 },
                        SyncAction::FetchBatch { after: found.number },
                    )
                }
            },
            _ => (state, SyncAction::Wait),
        },
        SyncEvent::BatchApplied { new_head } => match state {
            Session::Fetching { cursor, attempts } => {
                if new_head >= peer.block_number {
                    (Session::Converged, SyncAction::Report(SessionEnd::Converged))
                } else if new_head > cursor {
                    (
                        Session::Fetching { cursor: new_head, attempts: 0 },
                        SyncAction::FetchBatch { after: new_head },
                    )
                } else {
                    after_fault(state)
                }
            },
            _ => (state, SyncAction::Wait),
        },
        SyncEvent::Fault(fault) => {
            if state is Fetching && fault == Fault::VerificationFailed {
                (
                    Session::Failed(FailReason::VerificationFailed),
                    SyncAction::Report(SessionEnd::Failed(FailReason::VerificationFailed)),
                )
            } else {
                after_fault(state)
            }
        },
        SyncEvent::PeerAppeared(other) => {
            if active(state) && other.total_difficulty.value() > peer.total_difficulty.value() {
                (Session::Superseded, SyncAction::Report(SessionEnd::Superseded))
            } else {
                (state, SyncAction::Wait)
            }
        },
        SyncEvent::PeerLost => {
            if active(state) {
                (
                    Session::Failed(FailReason::PeerUnavailable),
                    SyncAction::Report(SessionEnd::Failed(FailReason::PeerUnavailable)),
                )
            } else {
                (state, SyncAction::Wait)
            }
        },
    }
}

/// What is wrong with a fetched batch before it is looked into, when the
/// blocks after height `after` were asked for and the batch starts at height
/// `first`: an empty batch is the peer's failure, and a batch has to start
/// one above `after`.
pub open spec fn batch_fault(after: BlockNumber, first: Option<BlockNumber>) -> Option<Fault> {
    match first {
        None => Some(Fault::PeerError),
        Some(number) => if number == after + 1 {
            None
        } else {
            Some(Fault::NonContiguousBatch)
        },
    }
}

/// The event that a fetched batch amounts to: a fault of the batch itself;
/// or what the processor made of it, where `status` is how the processor
/// ended and `head` the number of the local head afterwards.
pub open spec fn event_of_batch(
    after: BlockNumber,
    first: Option<BlockNumber>,
    status: ProcessStatus,
    head: Option<BlockNumber>,
) -> SyncEvent {
    match batch_fault(after, first) {
        Some(fault) => SyncEvent::Fault(fault),
        None => match status {
            ProcessStatus::VerificationFailed => SyncEvent::Fault(Fault::VerificationFailed),
            ProcessStatus::Rejected => SyncEvent::Fault(Fault::NonContiguousBatch),
            _ => match head {
                Some(new_head) => SyncEvent::BatchApplied { new_head },
                None => SyncEvent::Fault(Fault::PeerError),
            },
        },
    }
}

/// Checks where a fetched batch starts, before it is buffered.
pub fn check_batch_start(after: BlockNumber, first: Option<BlockNumber>) -> (fault: Option<Fault>)
    ensures
        fault == batch_fault(after, first),
{
    match first {
        None => Some(Fault::PeerError),
        Some(number) => {
            if after < u64::MAX && number == after + 1 {
                None
            } else {
                Some(Fault::NonContiguousBatch)
            }
        },
    }
}

/// The event to report for a fetched batch.
pub fn batch_event(
    after: BlockNumber,
    first: Option<BlockNumber>,
    status: ProcessStatus,
    head: Option<BlockNumber>,
) -> (e: SyncEvent)
    ensures
        e == event_of_batch(after, first, status, head),
{
    match check_batch_start(after, first) {
        Some(fault) => SyncEvent::Fault(fault),
        None => match status {
            ProcessStatus::VerificationFailed => SyncEvent::Fault(Fault::VerificationFailed),
            ProcessStatus::Rejected => SyncEvent::Fault(Fault::NonContiguousBatch),
            _ => match head {
                Some(new_head) => SyncEvent::BatchApplied { new_head },
                None => SyncEvent::Fault(Fault::PeerError),
            },
        },
    }
}

/// The live state of one synchronization attempt: the downloader, the
/// processor and the peer that is synchronized against.
pub struct SyncFlow<C: Consensus> {
    pub downloader: Downloader,
    pub processor: Processor<C>,
    pub peer_info: PeerInfo,
    pub session: Session,
}

impl<C: Consensus> SyncFlow<C> {
    /// The invariant of the flow.
    pub open spec fn wf(&self) -> bool {
        self.downloader.wf() && valid_session(self.peer_info, self.session)
    }

    /// A flow against `peer_info`, with nothing under way.
    pub fn new(peer_info: PeerInfo) -> (flow: Self)
        ensures
            flow.wf(),
            flow.peer_info == peer_info,
            flow.session == Session::Idle,
            flow.downloader.pool().len() == 0,
    {
        SyncFlow {
            downloader: Downloader::new(),
            processor: Processor::new(),
            peer_info,
            session: Session::Idle,
        }
    }

    /// Begins a round of synchronization: with no peer connected there is
    /// nothing to do and no flow; with a best peer, a flow against it is made
    /// and asked to start from the local head `head`.
    pub fn begin(best_peer: Option<PeerInfo>, head: Option<BlockNumber>) -> (r: (
        Option<Self>,
        SyncAction,
    ))
        ensures
            best_peer is None ==> r.0 is None && r.1 == SyncAction::Wait,
            best_peer matches Some(peer) ==> r.0 matches Some(flow) && flow.wf() && flow.peer_info
                == peer && flow.downloader.pool().len() == 0 && (flow.session, r.1) == next(
                peer,
                Session::Idle,
                SyncEvent::Start { head },
            ),
    {
        match best_peer {
            None => (None, SyncAction::Wait),
            Some(peer) => {
                let mut flow = Self::new(peer);
                let action = flow.step(SyncEvent::Start { head });
                (Some(flow), action)
            },
        }
    }

    /// The state of the session.
    pub fn state(&self) -> (s: Session)
        ensures
            s == self.session,
    {
        self.session
    }

    /// Whether the session has ended, and how.
    pub fn ended(&self) -> (end: Option<SessionEnd>)
        ensures
            end == (match self.session {
                Session::Converged => Some(SessionEnd::Converged),
                Session::Failed(reason) => Some(SessionEnd::Failed(reason)),
                Session::Superseded => Some(SessionEnd::Superseded),
                _ => None,
            }),
    {
        match self.session {
            Session::Converged => Some(SessionEnd::Converged),
            Session::Failed(reason) => Some(SessionEnd::Failed(reason)),
            Session::Superseded => Some(SessionEnd::Superseded),
            _ => None,
        }
    }

    /// Takes an event and says what to do next.
    pub fn step(&mut self, event: SyncEvent) -> (action: SyncAction)
        requires
            old(self).wf(),
        ensures
            final(self).wf(),
            (final(self).session, action) == next(old(self).peer_info, old(self).session, event),
            final(self).peer_info == old(self).peer_info,
            final(self).downloader == old(self).downloader,
            final(self).processor == old(self).processor,
    {
        let (state, action) = Self::decide(&self.peer_info, self.session, event);
        self.session = state;
        action
    }

    /// The transition function of the session.
    pub fn decide(peer: &PeerInfo, state: Session, event: SyncEvent) -> (r: (Session, SyncAction))
        requires
            valid_session(*peer, state),
        ensures
            r == next(*peer, state, event),
            valid_session(*peer, r.0),
    {
        let underway = match state {
            Session::FindingAncestor { .. } => true,
            Session::Fetching { .. } => true,
            _ => false,
        };
        match event {
            SyncEvent::Start { head } => {
                if underway {
                    (state, SyncAction::Wait)
                } else {
                    match head {
                        None => (Session::Idle, SyncAction::Wait),
                        Some(h) => {
                            if peer.block_number <= h {
                                (Session::Converged, SyncAction::Report(SessionEnd::Converged))
                            } else {
                                (
                                    Session::FindingAncestor { begin: h, attempts: 0 },
                                    SyncAction::FindAncestor {
                                        begin_number: h,
                                        allow_full_scan: true,
                                    },
                                )
                            }
                        },
                    }
                }
            },
            SyncEvent::AncestorFound(found) => match state {
                Session::FindingAncestor { begin, attempts } => {
                    if !found.related || found.number > begin {
                        (
                            Session::Failed(FailReason::AncestorNotFound),
                            SyncAction::Report(SessionEnd::Failed(FailReason::AncestorNotFound)),
                        )
                    } else {
                        (
                            Session::Fetching { cursor: found.number, attempts: 0 },
                            SyncAction::FetchBatch { after: found.number },
                        )
                    }
                },
                _ => (state, SyncAction::Wait),
            },
            SyncEvent::BatchApplied { new_head } => match state {
                Session::Fetching { cursor, attempts } => {
                    if new_head >= peer.block_number {
                        (Session::Converged, SyncAction::Report(SessionEnd::Converged))
                    } else if new_head > cursor {
                        (
                            Session::Fetching { cursor: new_head, attempts: 0 },
                            SyncAction::FetchBatch { after: new_head },
                        )
                    } else {
                        Self::retry(state)
                    }
                },
                _ => (state, SyncAction::Wait),
            },
            SyncEvent::Fault(fault) => {
                let fetching = match state {
                    Session::Fetching { .. } => true,
                    _ => false,
                };
                let refused = match fault {
                    Fault::VerificationFailed => true,
                    _ => false,
                };
                if fetching && refused {
                    (
                        Session::Failed(FailReason::VerificationFailed),
                        SyncAction::Report(SessionEnd::Failed(FailReason::VerificationFailed)),
                    )
                } else {
                    Self::retry(state)
                }
            },
            SyncEvent::PeerAppeared(other) => {
                let higher = other.total_difficulty.compare(&peer.total_difficulty)
                    == Order::Greater;
                if underway && higher {
                    (Session::Superseded, SyncAction::Report(SessionEnd::Superseded))
                } else {
                    (state, SyncAction::Wait)
                }
            },
            SyncEvent::PeerLost => {
                if underway {
                    (
                        Session::Failed(FailReason::PeerUnavailable),
                        SyncAction::Report(SessionEnd::Failed(FailReason::PeerUnavailable)),
                    )
                } else {
                    (state, SyncAction::Wait)
                }
            },
        }
    }

    /// Tries the current step once more, unless it has been tried too often.
    fn retry(state: Session) -> (r: (Session, SyncAction))
        ensures
            r == after_fault(state),
    {
        match state {
            Session::FindingAncestor { begin, attempts } => {
                if attempts < MAX_ATTEMPTS - 1 {
                    (
                        Session::FindingAncestor { begin, attempts: attempts + 1 },
                        SyncAction::FindAncestor { begin_number: begin, allow_full_scan: true },
                    )
                } else {
                    (
                        Session::Failed(FailReason::FetchError),
                        SyncAction::Report(SessionEnd::Failed(FailReason::FetchError)),
                    )
                }
            },
            Session::Fetching { cursor, attempts } => {
                if attempts < MAX_ATTEMPTS - 1 {
                    (
                        Session::Fetching { cursor, attempts: attempts + 1 },
                        SyncAction::FetchBatch { after: cursor },
                    )
                } else {
                    (
                        Session::Failed(FailReason::FetchError),
                        SyncAction::Report(SessionEnd::Failed(FailReason::FetchError)),
                    )
                }
            },
            _ => (state, SyncAction::Wait),
        }
    }
}

/// Idempotent synchronization: when the local head is already at or above
/// the head that the peer reported, a request to synchronize ends the
/// session at once as converged, and asks for no search and no fetch.
pub proof fn lemma_start_at_peer_head_converges(peer: PeerInfo, state: Session, head: BlockNumber)
    requires
        !active(state),
        peer.block_number <= head,
    ensures
        next(peer, state, SyncEvent::Start { head: Some(head) }) == (
            Session::Converged,
            SyncAction::Report(SessionEnd::Converged),
        ),
{
}

/// How far a session is from its end: the heights still to fetch, and the
/// attempts still allowed at the current one.
pub open spec fn distance(peer: PeerInfo, state: Session) -> (nat, nat, nat) {
    match state {
        Session::FindingAncestor { begin, attempts } => (
            1,
            peer.block_number as nat,
            (MAX_ATTEMPTS - attempts) as nat,
        ),
        Session::Fetching { cursor, attempts } => (
            0,
            (peer.block_number - cursor) as nat,
            (MAX_ATTEMPTS - attempts) as nat,
        ),
        _ => (0, 0, 0),
    }
}

/// Bounded sessions: every answer to a request of a session under way
/// brings the session nearer to its end, so no session runs for ever; and a
/// session that asks for something is under way.
pub proof fn lemma_session_makes_progress(peer: PeerInfo, state: Session, event: SyncEvent)
    requires
        valid_session(peer, state),
        active(state),
        event is AncestorFound && state is FindingAncestor || event is BatchApplied
            && state is Fetching || event is Fault || event is PeerLost,
    ensures
        ({
            let (after, action) = next(peer, state, event);
            let d0 = distance(peer, state);
            let d1 = distance(peer, after);
            &&& valid_session(peer, after)
            &&& d1.0 < d0.0 || (d1.0 == d0.0 && d1.1 < d0.1) || (d1.0 == d0.0 && d1.1 == d0.1 && d1.2
                < d0.2)
            &&& (action is FindAncestor ==> after is FindingAncestor)
            &&& (action is FetchBatch ==> after is Fetching)
            &&& (action is Report <==> !active(after))
        }),
{
}

/// A message to the coordinator: for the download stage, or for the
/// process stage.
pub enum SyncMessage<D, P> {
    DownloadMessage(D),
    ProcessMessage(P),
}

/// The stage that a message is for, with the message.
pub enum Routed<D, P> {
    ToDownloader(D),
    ToProcessor(P),
}

/// The coordinator: it routes messages and keeps no state of its own.
pub struct SyncActor {}

impl SyncActor {
    pub fn launch() -> (actor: SyncActor) {
        SyncActor {  }
    }

    /// Hands a message to the stage that it is for.
    pub fn handle<D, P>(&self, msg: SyncMessage<D, P>) -> (routed: Routed<D, P>)
        ensures
            routed == (match msg {
                SyncMessage::DownloadMessage(m) => Routed::<D, P>::ToDownloader(m),
                SyncMessage::ProcessMessage(m) => Routed::<D, P>::ToProcessor(m),
            }),
    {
        match msg {
            SyncMessage::DownloadMessage(download_msg) => Routed::ToDownloader(download_msg),
            SyncMessage::ProcessMessage(process_msg) => Routed::ToProcessor(process_msg),
        }
    }
}

} // verus!
