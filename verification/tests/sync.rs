use chain_sync::ancestor::Ancestor;
use chain_sync::block::Block;
use chain_sync::block::BlockBody;
use chain_sync::block::BlockHeader;
use chain_sync::block::BlockInfo;
use chain_sync::block::PeerInfo;
use chain_sync::chain::MemChain;
use chain_sync::dummy::DummyConsensus;
use chain_sync::argon_consensus::ArgonConsensus;
use chain_sync::full_sync::fetch_batch;
use chain_sync::full_sync::SyncBencher;
use chain_sync::full_sync::BATCH_SIZE;
use chain_sync::hash::HashValue;
use chain_sync::hash::U256;
use chain_sync::process::ProcessStatus;
use chain_sync::sync::batch_event;
use chain_sync::sync::check_batch_start;
use chain_sync::sync::FailReason;
use chain_sync::sync::Fault;
use chain_sync::sync::Routed;
use chain_sync::sync::Session;
use chain_sync::sync::SessionEnd;
use chain_sync::sync::SyncAction;
use chain_sync::sync::SyncActor;
use chain_sync::sync::SyncEvent;
use chain_sync::sync::SyncFlow;
use chain_sync::sync::SyncMessage;
use chain_sync::sync::MAX_ATTEMPTS;

type Flow = SyncFlow<DummyConsensus>;

fn id(branch: u8, number: u64) -> HashValue {
    let mut b = [0u8; 32];
    b[0] = branch;
    b[24..32].copy_from_slice(&number.to_be_bytes());
    HashValue::new(b)
}

fn score(n: u8) -> U256 {
    let mut b = [0u8; 32];
    b[31] = n;
    U256::new(b)
}

fn peer_at(head: u64) -> PeerInfo {
    PeerInfo::new(HashValue::new([7u8; 32]), head, score(50))
}

fn block(branch: u8, number: u64, parent: HashValue) -> Block {
    let me = id(branch, number);
    Block {
        header: BlockHeader {
            id: me,
            parent_id: parent,
            number,
            difficulty: U256::new([0xffu8; 32]),
            consensus_header: vec![],
        },
        body: BlockBody { block_id: me, payload: vec![number as u8] },
        info: BlockInfo { block_id: me, payload: vec![] },
    }
}

/// A chain of `len` blocks that follows branch 1 up to height `fork` and
/// branch `branch` above it.
fn chain_forking(branch: u8, fork: u64, len: u64) -> MemChain {
    let mut chain = MemChain::new();
    let mut parent = HashValue::zero();
    for n in 0..len {
        let b = block(if n <= fork { 1 } else { branch }, n, parent);
        parent = b.header.id;
        chain.try_connect(b).unwrap();
    }
    chain
}

fn find(begin: u64) -> SyncAction {
    SyncAction::FindAncestor { begin_number: begin, allow_full_scan: true }
}

fn failed(reason: FailReason) -> SyncAction {
    SyncAction::Report(SessionEnd::Failed(reason))
}

#[test]
fn retry_budget_is_three() {
    assert_eq!(MAX_ATTEMPTS, 3);
}

#[test]
fn new_flow_is_idle() {
    let flow = Flow::new(peer_at(10));
    assert_eq!(flow.state(), Session::Idle);
    assert_eq!(flow.ended(), None);
    assert_eq!(flow.peer_info, peer_at(10));
    assert_eq!(flow.downloader.pending(), 0);
}

#[test]
fn start_without_a_local_chain_waits() {
    let mut flow = Flow::new(peer_at(10));
    assert_eq!(flow.step(SyncEvent::Start { head: None }), SyncAction::Wait);
    assert_eq!(flow.state(), Session::Idle);
}

#[test]
fn start_at_the_peers_head_converges_at_once() {
    for head in [10u64, 11, 500] {
        let mut flow = Flow::new(peer_at(10));
        assert_eq!(
            flow.step(SyncEvent::Start { head: Some(head) }),
            SyncAction::Report(SessionEnd::Converged)
        );
        assert_eq!(flow.state(), Session::Converged);
        assert_eq!(flow.ended(), Some(SessionEnd::Converged));
        // Asking again changes nothing.
        assert_eq!(
            flow.step(SyncEvent::Start { head: Some(head) }),
            SyncAction::Report(SessionEnd::Converged)
        );
    }
}

#[test]
fn session_runs_from_idle_to_converged() {
    let mut flow = Flow::new(peer_at(40));
    assert_eq!(flow.step(SyncEvent::Start { head: Some(7) }), find(7));
    assert_eq!(flow.state(), Session::FindingAncestor { begin: 7, attempts: 0 });
    assert_eq!(
        flow.step(SyncEvent::AncestorFound(Ancestor { number: 5, related: true })),
        SyncAction::FetchBatch { after: 5 }
    );
    assert_eq!(flow.state(), Session::Fetching { cursor: 5, attempts: 0 });
    assert_eq!(
        flow.step(SyncEvent::BatchApplied { new_head: 21 }),
        SyncAction::FetchBatch { after: 21 }
    );
    assert_eq!(
        flow.step(SyncEvent::BatchApplied { new_head: 37 }),
        SyncAction::FetchBatch { after: 37 }
    );
    assert_eq!(
        flow.step(SyncEvent::BatchApplied { new_head: 40 }),
        SyncAction::Report(SessionEnd::Converged)
    );
    assert_eq!(flow.ended(), Some(SessionEnd::Converged));
    assert_eq!(flow.step(SyncEvent::BatchApplied { new_head: 50 }), SyncAction::Wait);
    assert_eq!(flow.state(), Session::Converged);
}

#[test]
fn start_is_ignored_while_a_session_runs() {
    let mut flow = Flow::new(peer_at(40));
    flow.step(SyncEvent::Start { head: Some(7) });
    assert_eq!(flow.step(SyncEvent::Start { head: Some(50) }), SyncAction::Wait);
    assert_eq!(flow.state(), Session::FindingAncestor { begin: 7, attempts: 0 });
}

#[test]
fn unrelated_peer_fails_the_session() {
    let mut flow = Flow::new(peer_at(40));
    flow.step(SyncEvent::Start { head: Some(7) });
    assert_eq!(
        flow.step(SyncEvent::AncestorFound(Ancestor { number: 0, related: false })),
        failed(FailReason::AncestorNotFound)
    );
    assert_eq!(flow.state(), Session::Failed(FailReason::AncestorNotFound));
    assert_eq!(flow.ended(), Some(SessionEnd::Failed(FailReason::AncestorNotFound)));
}

#[test]
fn ancestor_above_the_start_fails_the_session() {
    let mut flow = Flow::new(peer_at(40));
    flow.step(SyncEvent::Start { head: Some(7) });
    assert_eq!(
        flow.step(SyncEvent::AncestorFound(Ancestor { number: 8, related: true })),
        failed(FailReason::AncestorNotFound)
    );
}

#[test]
fn ancestor_search_is_retried_twice() {
    let mut flow = Flow::new(peer_at(40));
    flow.step(SyncEvent::Start { head: Some(7) });
    assert_eq!(flow.step(SyncEvent::Fault(Fault::Timeout)), find(7));
    assert_eq!(flow.state(), Session::FindingAncestor { begin: 7, attempts: 1 });
    assert_eq!(flow.step(SyncEvent::Fault(Fault::PeerError)), find(7));
    assert_eq!(flow.step(SyncEvent::Fault(Fault::Timeout)), failed(FailReason::FetchError));
    assert_eq!(flow.state(), Session::Failed(FailReason::FetchError));
}

#[test]
fn fetch_is_retried_twice_and_progress_renews_the_budget() {
    let mut flow = Flow::new(peer_at(40));
    flow.step(SyncEvent::Start { head: Some(7) });
    flow.step(SyncEvent::AncestorFound(Ancestor { number: 7, related: true }));
    let again = SyncAction::FetchBatch { after: 7 };
    assert_eq!(flow.step(SyncEvent::Fault(Fault::Timeout)), again);
    assert_eq!(flow.step(SyncEvent::Fault(Fault::NonContiguousBatch)), again);
    assert_eq!(flow.state(), Session::Fetching { cursor: 7, attempts: 2 });
    assert_eq!(
        flow.step(SyncEvent::BatchApplied { new_head: 9 }),
        SyncAction::FetchBatch { after: 9 }
    );
    assert_eq!(flow.state(), Session::Fetching { cursor: 9, attempts: 0 });
    let again = SyncAction::FetchBatch { after: 9 };
    assert_eq!(flow.step(SyncEvent::Fault(Fault::PeerError)), again);
    // A batch that brings the head no further counts as a failed attempt.
    assert_eq!(flow.step(SyncEvent::BatchApplied { new_head: 9 }), again);
    assert_eq!(flow.step(SyncEvent::Fault(Fault::Timeout)), failed(FailReason::FetchError));
}

#[test]
fn failed_verification_ends_the_session_at_once() {
    let mut flow = Flow::new(peer_at(40));
    flow.step(SyncEvent::Start { head: Some(7) });
    flow.step(SyncEvent::AncestorFound(Ancestor { number: 7, related: true }));
    assert_eq!(
        flow.step(SyncEvent::Fault(Fault::VerificationFailed)),
        failed(FailReason::VerificationFailed)
    );
    assert_eq!(flow.state(), Session::Failed(FailReason::VerificationFailed));
}

#[test]
fn better_peer_supersedes_a_running_session() {
    let better = PeerInfo::new(HashValue::new([8u8; 32]), 41, score(51));
    let equal = PeerInfo::new(HashValue::new([8u8; 32]), 41, score(50));
    let mut flow = Flow::new(peer_at(40));
    assert_eq!(flow.step(SyncEvent::PeerAppeared(better)), SyncAction::Wait);
    flow.step(SyncEvent::Start { head: Some(7) });
    assert_eq!(flow.step(SyncEvent::PeerAppeared(equal)), SyncAction::Wait);
    assert_eq!(
        flow.step(SyncEvent::PeerAppeared(better)),
        SyncAction::Report(SessionEnd::Superseded)
    );
    assert_eq!(flow.state(), Session::Superseded);
    assert_eq!(flow.ended(), Some(SessionEnd::Superseded));
}

#[test]
fn lost_peer_fails_a_running_session() {
    let mut flow = Flow::new(peer_at(40));
    assert_eq!(flow.step(SyncEvent::PeerLost), SyncAction::Wait);
    assert_eq!(flow.state(), Session::Idle);
    flow.step(SyncEvent::Start { head: Some(7) });
    assert_eq!(flow.step(SyncEvent::PeerLost), failed(FailReason::PeerUnavailable));
    assert_eq!(flow.state(), Session::Failed(FailReason::PeerUnavailable));
    assert_eq!(flow.step(SyncEvent::PeerLost), SyncAction::Wait);
}

#[test]
fn ended_session_starts_again_on_request() {
    let mut flow = Flow::new(peer_at(40));
    flow.step(SyncEvent::Start { head: Some(7) });
    flow.step(SyncEvent::AncestorFound(Ancestor { number: 0, related: false }));
    assert_eq!(flow.step(SyncEvent::Start { head: Some(7) }), find(7));
}

#[test]
fn stray_events_are_ignored() {
    let mut flow = Flow::new(peer_at(40));
    assert_eq!(flow.step(SyncEvent::BatchApplied { new_head: 3 }), SyncAction::Wait);
    assert_eq!(
        flow.step(SyncEvent::AncestorFound(Ancestor { number: 3, related: true })),
        SyncAction::Wait
    );
    assert_eq!(flow.step(SyncEvent::Fault(Fault::Timeout)), SyncAction::Wait);
    assert_eq!(flow.state(), Session::Idle);
    flow.step(SyncEvent::Start { head: Some(7) });
    assert_eq!(flow.step(SyncEvent::BatchApplied { new_head: 9 }), SyncAction::Wait);
    assert_eq!(flow.state(), Session::FindingAncestor { begin: 7, attempts: 0 });
}

#[test]
fn decide_is_the_transition_function() {
    let p = peer_at(40);
    assert_eq!(
        Flow::decide(&p, Session::Idle, SyncEvent::Start { head: Some(3) }),
        (Session::FindingAncestor { begin: 3, attempts: 0 }, find(3))
    );
}

#[test]
fn coordinator_routes_by_stage() {
    let actor = SyncActor::launch();
    let d: SyncMessage<u8, &str> = SyncMessage::DownloadMessage(4);
    let p: SyncMessage<u8, &str> = SyncMessage::ProcessMessage("apply");
    assert!(matches!(actor.handle(d), Routed::ToDownloader(4)));
    assert!(matches!(actor.handle(p), Routed::ToProcessor("apply")));
}

#[test]
fn batch_size_is_sixteen() {
    assert_eq!(BATCH_SIZE, 16);
}

#[test]
fn fetch_batch_reads_what_follows() {
    let remote = chain_forking(1, 100, 50);
    let batch = fetch_batch(&remote, 3, 49);
    let numbers: Vec<u64> = batch.headers.iter().map(|h| h.number).collect();
    assert_eq!(numbers, (4..20).collect::<Vec<u64>>());
    assert_eq!(batch.bodies.len(), 16);
    assert_eq!(batch.infos.len(), 16);
    assert_eq!(batch.bodies[0].block_id, id(1, 4));
    assert_eq!(batch.infos[15].block_id, id(1, 19));
    // No further than the reported head, no further than the chain.
    assert_eq!(fetch_batch(&remote, 3, 6).headers.len(), 3);
    assert_eq!(fetch_batch(&remote, 45, 80).headers.len(), 4);
    assert_eq!(fetch_batch(&remote, 49, 80).headers.len(), 0);
    assert_eq!(fetch_batch(&remote, 10, 10).headers.len(), 0);
    assert_eq!(fetch_batch(&remote, 60, 80).headers.len(), 0);
}

#[test]
fn empty_node_syncs_to_a_seed_that_mined_blocks() {
    for mined in [1u64, 5, 16, 17, 40, 100] {
        let seed = chain_forking(1, u64::MAX, mined + 1);
        let mut node = chain_forking(1, u64::MAX, 1);
        let converged = SyncBencher::sync_block::<DummyConsensus>(peer_at(mined), &mut node, &seed, 0);
        assert!(converged, "after {} blocks", mined);
        assert_eq!(node.len(), seed.len());
        assert_eq!(
            node.master_head_header().unwrap().id(),
            seed.master_head_header().unwrap().id()
        );
        assert!(SyncBencher::heads_agree(&node, &seed));
    }
}

#[test]
fn forked_node_is_rolled_back_and_follows_the_peer() {
    let seed = chain_forking(2, 6, 30);
    let mut node = chain_forking(3, 6, 12);
    let mut flow = Flow::new(peer_at(29));
    let end = SyncBencher::sync_block_inner(&mut flow, &mut node, &seed, 0);
    assert_eq!(end, Some(SessionEnd::Converged));
    assert_eq!(node.len(), 30);
    assert_eq!(node.header_id_at(7), Some(id(2, 7)));
    assert_eq!(node.header_id_at(6), Some(id(1, 6)));
    assert_eq!(flow.downloader.pending(), 0);
}

#[test]
fn resync_at_the_peers_head_changes_nothing() {
    let seed = chain_forking(1, u64::MAX, 20);
    let mut node = chain_forking(1, u64::MAX, 20);
    let mut flow = Flow::new(peer_at(19));
    let end = SyncBencher::sync_block_inner(&mut flow, &mut node, &seed, 0);
    assert_eq!(end, Some(SessionEnd::Converged));
    assert_eq!(node.len(), 20);
    let end = SyncBencher::sync_block_inner(&mut flow, &mut node, &seed, 0);
    assert_eq!(end, Some(SessionEnd::Converged));
    assert_eq!(node.len(), 20);
}

#[test]
fn node_without_blocks_does_not_start() {
    let seed = chain_forking(1, u64::MAX, 20);
    let mut node = MemChain::new();
    let mut flow = Flow::new(peer_at(19));
    assert_eq!(SyncBencher::sync_block_inner(&mut flow, &mut node, &seed, 0), None);
    assert_eq!(node.len(), 0);
    assert!(!SyncBencher::sync_block::<DummyConsensus>(peer_at(19), &mut node, &seed, 0));
}

#[test]
fn unrelated_seed_fails_the_session() {
    let seed = chain_forking(1, u64::MAX, 20);
    let mut node = MemChain::new();
    node.try_connect(block(9, 0, HashValue::zero())).unwrap();
    let mut flow = Flow::new(peer_at(19));
    let end = SyncBencher::sync_block_inner(&mut flow, &mut node, &seed, 0);
    assert_eq!(end, Some(SessionEnd::Failed(FailReason::AncestorNotFound)));
    assert_eq!(node.len(), 1);
}

#[test]
fn peer_that_reports_more_than_it_has_fails_the_session() {
    let seed = chain_forking(1, u64::MAX, 20);
    let mut node = chain_forking(1, u64::MAX, 5);
    let mut flow = Flow::new(peer_at(25));
    let end = SyncBencher::sync_block_inner(&mut flow, &mut node, &seed, 0);
    assert_eq!(end, Some(SessionEnd::Failed(FailReason::FetchError)));
    assert_eq!(node.len(), 20);
}

#[test]
fn header_that_fails_verification_fails_the_session() {
    let mut seed = MemChain::new();
    let mut parent = HashValue::zero();
    for n in 0..10 {
        let mut b = block(1, n, parent);
        b.header.consensus_header = vec![1, 0, 0, 0, 0, 0, 0, 0];
        if n == 5 {
            b.header.difficulty = U256::new([0u8; 32]);
        }
        parent = b.header.id;
        seed.try_connect(b).unwrap();
    }
    let mut node = MemChain::new();
    node.try_connect(seed.block_at(0).unwrap().duplicate()).unwrap();
    let mut flow: SyncFlow<ArgonConsensus> = SyncFlow::new(peer_at(9));
    let end = SyncBencher::sync_block_inner(&mut flow, &mut node, &seed, 0);
    assert_eq!(end, Some(SessionEnd::Failed(FailReason::VerificationFailed)));
    assert_eq!(node.len(), 5);
}

#[test]
fn batch_has_to_start_one_above_the_cursor() {
    assert_eq!(check_batch_start(7, None), Some(Fault::PeerError));
    assert_eq!(check_batch_start(7, Some(8)), None);
    assert_eq!(check_batch_start(7, Some(7)), Some(Fault::NonContiguousBatch));
    assert_eq!(check_batch_start(7, Some(9)), Some(Fault::NonContiguousBatch));
    assert_eq!(check_batch_start(0, Some(1)), None);
    assert_eq!(check_batch_start(u64::MAX, Some(0)), Some(Fault::NonContiguousBatch));
    assert_eq!(check_batch_start(u64::MAX, None), Some(Fault::PeerError));
}

fn same_event(a: SyncEvent, b: SyncEvent) -> bool {
    format!("{:?}", a) == format!("{:?}", b)
}

#[test]
fn batch_event_reports_what_came_of_a_batch() {
    let applied = SyncEvent::BatchApplied { new_head: 12 };
    assert!(same_event(batch_event(7, Some(8), ProcessStatus::Drained, Some(12)), applied));
    assert!(same_event(batch_event(7, Some(8), ProcessStatus::Deferred, Some(12)), applied));
    assert!(same_event(
        batch_event(7, Some(8), ProcessStatus::VerificationFailed, Some(9)),
        SyncEvent::Fault(Fault::VerificationFailed)
    ));
    assert!(same_event(
        batch_event(7, Some(8), ProcessStatus::Rejected, Some(9)),
        SyncEvent::Fault(Fault::NonContiguousBatch)
    ));
    assert!(same_event(
        batch_event(7, Some(8), ProcessStatus::Drained, None),
        SyncEvent::Fault(Fault::PeerError)
    ));
    assert!(same_event(
        batch_event(7, None, ProcessStatus::Drained, Some(12)),
        SyncEvent::Fault(Fault::PeerError)
    ));
    assert!(same_event(
        batch_event(7, Some(10), ProcessStatus::Drained, Some(12)),
        SyncEvent::Fault(Fault::NonContiguousBatch)
    ));
}

#[test]
fn begin_without_a_peer_waits() {
    let (flow, action) = Flow::begin(None, Some(3));
    assert!(flow.is_none());
    assert_eq!(action, SyncAction::Wait);
    let (flow, action) = Flow::begin(None, None);
    assert!(flow.is_none());
    assert_eq!(action, SyncAction::Wait);
}

#[test]
fn begin_with_a_peer_starts_a_flow_against_it() {
    let (flow, action) = Flow::begin(Some(peer_at(40)), Some(7));
    let flow = flow.unwrap();
    assert_eq!(action, find(7));
    assert_eq!(flow.peer_info, peer_at(40));
    assert_eq!(flow.state(), Session::FindingAncestor { begin: 7, attempts: 0 });
    let (flow, action) = Flow::begin(Some(peer_at(40)), Some(40));
    assert_eq!(action, SyncAction::Report(SessionEnd::Converged));
    assert_eq!(flow.unwrap().state(), Session::Converged);
    let (flow, action) = Flow::begin(Some(peer_at(40)), None);
    assert_eq!(action, SyncAction::Wait);
    assert_eq!(flow.unwrap().state(), Session::Idle);
}

#[test]
fn seed_without_mined_blocks_leaves_the_node_as_it_is() {
    let seed = chain_forking(1, u64::MAX, 1);
    let mut node = chain_forking(1, u64::MAX, 1);
    assert!(SyncBencher::sync_block::<DummyConsensus>(peer_at(0), &mut node, &seed, 0));
    assert_eq!(node.len(), 1);
    assert_eq!(node.header_id_at(0), seed.header_id_at(0));
}

#[test]
fn failed_sync_keeps_what_the_chains_share() {
    let seed = chain_forking(2, 3, 10);
    let mut node = chain_forking(3, 3, 6);
    // The peer reports more than it has: the node follows it as far as it
    // goes, and keeps the four blocks that both chains share.
    assert!(SyncBencher::sync_block::<DummyConsensus>(peer_at(9), &mut node, &seed, 0));
    let mut node = chain_forking(3, 3, 6);
    let converged = SyncBencher::sync_block::<DummyConsensus>(peer_at(20), &mut node, &seed, 0);
    assert!(converged);
    assert_eq!(node.len(), 10);
    for n in 0..4 {
        assert_eq!(node.header_id_at(n), Some(id(1, n)));
    }
}
