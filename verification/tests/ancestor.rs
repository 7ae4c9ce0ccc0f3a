use chain_sync::ancestor::find_ancestor_header;
use chain_sync::ancestor::Ancestor;
use chain_sync::ancestor::AncestorSearch;
use chain_sync::block::Block;
use chain_sync::block::BlockBody;
use chain_sync::block::BlockHeader;
use chain_sync::block::BlockInfo;
use chain_sync::chain::MemChain;
use chain_sync::hash::HashValue;
use chain_sync::hash::U256;

fn id(branch: u8, number: u64) -> HashValue {
    let mut b = [0u8; 32];
    b[0] = branch;
    b[24..32].copy_from_slice(&number.to_be_bytes());
    HashValue::new(b)
}

fn block(branch: u8, number: u64, parent: HashValue) -> Block {
    let me = id(branch, number);
    Block {
        header: BlockHeader {
            id: me,
            parent_id: parent,
            number,
            difficulty: U256::new([0xffu8; 32]),
            consensus_header: vec![],
        },
        body: BlockBody { block_id: me, payload: vec![] },
        info: BlockInfo { block_id: me, payload: vec![] },
    }
}

/// A chain of `len` blocks that follows branch 1 up to height `fork` and
/// branch `branch` above it.
fn chain_forking(branch: u8, fork: u64, len: u64) -> MemChain {
    let mut chain = MemChain::new();
    let mut parent = HashValue::zero();
    for n in 0..len {
        let b = block(if n <= fork { 1 } else { branch }, n, parent);
        parent = b.header.id;
        chain.try_connect(b).unwrap();
    }
    chain
}

/// Runs a search by hand and returns the heights that it asked about.
fn probes(begin: u64, full: bool, fork: u64) -> (Vec<u64>, Ancestor) {
    let mut search = AncestorSearch::start(begin, full);
    let mut asked = Vec::new();
    while let Some(h) = search.next_probe() {
        asked.push(h);
        search.record(h <= fork);
    }
    (asked, search.result().unwrap())
}

#[test]
fn identical_chains_meet_at_the_start() {
    let a = chain_forking(1, 100, 21);
    let b = chain_forking(1, 100, 21);
    let found = Ancestor { number: 20, related: true };
    assert_eq!(find_ancestor_header(&a, &b, 20, true), found);
    assert_eq!(find_ancestor_header(&a, &b, 20, false), found);
}

#[test]
fn peer_ahead_of_us_meets_at_our_head() {
    let a = chain_forking(1, 100, 11);
    let b = chain_forking(1, 100, 40);
    assert_eq!(find_ancestor_header(&a, &b, 10, true), Ancestor { number: 10, related: true });
}

#[test]
fn forked_chains_meet_exactly_at_the_fork() {
    for fork in [0u64, 1, 2, 5, 12, 13, 18, 19] {
        let a = chain_forking(2, fork, 21);
        let b = chain_forking(3, fork, 30);
        assert_eq!(
            find_ancestor_header(&a, &b, 20, true),
            Ancestor { number: fork, related: true },
            "fork at {}",
            fork
        );
    }
}

#[test]
fn default_scan_stops_at_the_first_agreement() {
    let a = chain_forking(2, 12, 21);
    let b = chain_forking(3, 12, 30);
    // The descent asks at 20, 19, 17, 13 and 5.
    assert_eq!(find_ancestor_header(&a, &b, 20, false), Ancestor { number: 5, related: true });
}

#[test]
fn shorter_peer_meets_at_its_own_height() {
    let a = chain_forking(1, 100, 21);
    let b = chain_forking(1, 100, 8);
    assert_eq!(find_ancestor_header(&a, &b, 20, true), Ancestor { number: 7, related: true });
}

#[test]
fn unrelated_chains_fall_back_to_genesis() {
    let mut a = MemChain::new();
    let mut b = MemChain::new();
    let mut pa = HashValue::zero();
    let mut pb = HashValue::zero();
    for n in 0..10 {
        let x = block(4, n, pa);
        pa = x.header.id;
        a.try_connect(x).unwrap();
        let y = block(5, n, pb);
        pb = y.header.id;
        b.try_connect(y).unwrap();
    }
    let lost = Ancestor { number: 0, related: false };
    assert_eq!(find_ancestor_header(&a, &b, 9, true), lost);
    assert_eq!(find_ancestor_header(&a, &b, 9, false), lost);
}

#[test]
fn empty_peer_is_unrelated() {
    let a = chain_forking(1, 100, 5);
    let b = MemChain::new();
    assert_eq!(find_ancestor_header(&a, &b, 4, true), Ancestor { number: 0, related: false });
}

#[test]
fn search_at_genesis_asks_once() {
    assert_eq!(probes(0, true, 0), (vec![0], Ancestor { number: 0, related: true }));
    assert_eq!(probes(0, false, 0), (vec![0], Ancestor { number: 0, related: true }));
}

#[test]
fn descent_doubles_its_step() {
    let (asked, found) = probes(100, false, 0);
    assert_eq!(asked, vec![100, 99, 97, 93, 85, 69, 37, 0]);
    assert_eq!(found, Ancestor { number: 0, related: true });
}

#[test]
fn full_scan_walks_up_to_the_fork() {
    let (asked, found) = probes(20, true, 12);
    assert_eq!(asked, vec![20, 19, 17, 13, 5, 6, 7, 8, 9, 10, 11, 12, 13]);
    assert_eq!(found, Ancestor { number: 12, related: true });
}

#[test]
fn full_scan_stops_at_the_start() {
    let (asked, found) = probes(20, true, 50);
    assert_eq!(asked, vec![20]);
    assert_eq!(found, Ancestor { number: 20, related: true });
}

#[test]
fn search_from_the_highest_height_does_not_overflow() {
    let (asked, found) = probes(u64::MAX, true, u64::MAX);
    assert_eq!(asked, vec![u64::MAX]);
    assert_eq!(found, Ancestor { number: u64::MAX, related: true });
    let (asked, _) = probes(u64::MAX, false, 0);
    assert_eq!(asked.len(), 65);
    assert_eq!(asked[64], 0);
}

#[test]
fn search_has_no_result_before_it_is_done() {
    let mut search = AncestorSearch::start(5, true);
    assert_eq!(search.result(), None);
    assert_eq!(search.next_probe(), Some(5));
    search.record(false);
    assert_eq!(search.result(), None);
    assert_eq!(search.next_probe(), Some(4));
    search.record(true);
    assert_eq!(search.next_probe(), Some(5));
    search.record(false);
    assert_eq!(search.next_probe(), None);
    assert_eq!(search.result(), Some(Ancestor { number: 4, related: true }));
    search.record(true);
    assert_eq!(search.result(), Some(Ancestor { number: 4, related: true }));
}
