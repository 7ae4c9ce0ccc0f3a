use chain_sync::ancestor::Ancestor;
use chain_sync::block::Block;
use chain_sync::block::BlockBody;
use chain_sync::block::BlockHeader;
use chain_sync::block::BlockInfo;
use chain_sync::block::PeerInfo;
use chain_sync::chain::MemChain;
use chain_sync::download::best_peer;
use chain_sync::download::check_batch;
use chain_sync::download::DownloadError;
use chain_sync::download::Downloader;
use chain_sync::hash::HashValue;
use chain_sync::hash::U256;

fn id(branch: u8, number: u64) -> HashValue {
    let mut b = [0u8; 32];
    b[0] = branch;
    b[24..32].copy_from_slice(&number.to_be_bytes());
    HashValue::new(b)
}

fn score(n: u8) -> U256 {
    let mut b = [0u8; 32];
    b[31] = n;
    U256::new(b)
}

fn peer(tag: u8, s: u8) -> PeerInfo {
    PeerInfo::new(HashValue::new([tag; 32]), 10, score(s))
}

fn block(branch: u8, number: u64) -> Block {
    let me = id(branch, number);
    Block {
        header: BlockHeader {
            id: me,
            parent_id: if number == 0 { HashValue::zero() } else { id(branch, number - 1) },
            number,
            difficulty: U256::new([0xffu8; 32]),
            consensus_header: vec![],
        },
        body: BlockBody { block_id: me, payload: vec![number as u8] },
        info: BlockInfo { block_id: me, payload: vec![] },
    }
}

fn batch(from: u64, to: u64) -> (Vec<BlockHeader>, Vec<BlockBody>, Vec<BlockInfo>) {
    let mut h = Vec::new();
    let mut b = Vec::new();
    let mut i = Vec::new();
    for n in from..to {
        let blk = block(1, n);
        h.push(blk.header);
        b.push(blk.body);
        i.push(blk.info);
    }
    (h, b, i)
}

#[test]
fn best_peer_of_none_is_none() {
    assert_eq!(best_peer(&vec![]), None);
    assert_eq!(Downloader::best_peer(&vec![]), None);
}

#[test]
fn best_peer_has_the_highest_score() {
    let peers = vec![peer(1, 5), peer(2, 9), peer(3, 7)];
    assert_eq!(best_peer(&peers), Some(peer(2, 9)));
    assert_eq!(Downloader::best_peer(&peers), Some(peer(2, 9)));
    assert_eq!(best_peer(&vec![peer(4, 0)]), Some(peer(4, 0)));
}

#[test]
fn best_peer_among_equals_is_the_first() {
    let peers = vec![peer(1, 5), peer(2, 9), peer(3, 9), peer(4, 9)];
    assert_eq!(best_peer(&peers), Some(peer(2, 9)));
}

#[test]
fn check_batch_accepts_a_contiguous_run() {
    let (h, b, i) = batch(4, 9);
    assert_eq!(check_batch(&h, &b, &i), Ok(()));
    assert_eq!(check_batch(&vec![], &vec![], &vec![]), Ok(()));
    let (h, b, i) = batch(4, 5);
    assert_eq!(check_batch(&h, &b, &i), Ok(()));
}

#[test]
fn check_batch_refuses_unequal_lengths() {
    let (h, mut b, i) = batch(4, 9);
    b.pop();
    assert_eq!(check_batch(&h, &b, &i), Err(DownloadError::LengthMismatch));
    let (h, b, mut i) = batch(4, 9);
    i.pop();
    assert_eq!(check_batch(&h, &b, &i), Err(DownloadError::LengthMismatch));
}

#[test]
fn check_batch_refuses_payloads_of_other_blocks() {
    let (h, mut b, i) = batch(4, 9);
    b.swap(1, 2);
    assert_eq!(check_batch(&h, &b, &i), Err(DownloadError::Misaligned));
    let (h, b, mut i) = batch(4, 9);
    i[4].block_id = id(9, 9);
    assert_eq!(check_batch(&h, &b, &i), Err(DownloadError::Misaligned));
}

#[test]
fn check_batch_refuses_a_gap_or_a_foreign_parent() {
    let (mut h, mut b, mut i) = batch(4, 9);
    h.remove(2);
    b.remove(2);
    i.remove(2);
    assert_eq!(check_batch(&h, &b, &i), Err(DownloadError::NonContiguous));
    let (mut h, b, i) = batch(4, 9);
    h[3].parent_id = id(9, 6);
    assert_eq!(check_batch(&h, &b, &i), Err(DownloadError::NonContiguous));
}

#[test]
fn do_blocks_buffers_the_run_in_order() {
    let mut d = Downloader::new();
    assert_eq!(d.pending(), 0);
    let (h, b, i) = batch(4, 9);
    assert_eq!(d.do_blocks_at(100, peer(1, 1), h, b, i), Ok(()));
    assert_eq!(d.pending(), 5);
    let ready = d.take_ready(3);
    assert_eq!(ready, vec![block(1, 4), block(1, 5), block(1, 6)]);
    assert_eq!(d.pending(), 2);
    assert_eq!(d.take_ready(10), vec![block(1, 7), block(1, 8)]);
}

#[test]
fn do_blocks_with_the_clock_buffers_too() {
    let mut d = Downloader::new();
    let (h, b, i) = batch(0, 3);
    assert_eq!(d.do_blocks(peer(1, 1), h, b, i), Ok(()));
    assert_eq!(d.pending(), 3);
    assert!(d.gc(0).is_empty());
    assert_eq!(d.gc(u64::MAX).len(), 3);
}

#[test]
fn do_blocks_refuses_a_bad_batch_whole() {
    let mut d = Downloader::new();
    let (mut h, b, i) = batch(4, 9);
    h[3].number = 99;
    assert_eq!(d.do_blocks_at(100, peer(1, 1), h, b, i), Err(DownloadError::NonContiguous));
    assert_eq!(d.pending(), 0);
}

#[test]
fn do_blocks_from_two_peers_does_not_duplicate() {
    let mut d = Downloader::new();
    let (h, b, i) = batch(4, 9);
    d.do_blocks_at(100, peer(1, 1), h, b, i).unwrap();
    let (h, b, i) = batch(6, 11);
    d.do_blocks_at(200, peer(2, 1), h, b, i).unwrap();
    assert_eq!(d.pending(), 7);
    let numbers: Vec<u64> = d.take_ready(100).iter().map(|b| b.header.number).collect();
    assert_eq!(numbers, vec![4, 5, 6, 7, 8, 9, 10]);
}

#[test]
fn downloader_gc_evicts_expired_blocks() {
    let mut d = Downloader::new();
    let (h, b, i) = batch(0, 2);
    d.do_blocks_at(0, peer(1, 1), h, b, i).unwrap();
    let (h, b, i) = batch(2, 4);
    d.do_blocks_at(1_000, peer(1, 1), h, b, i).unwrap();
    assert_eq!(d.gc(3_600), vec![block(1, 0), block(1, 1)]);
    assert_eq!(d.pending(), 2);
}

#[test]
fn downloader_reads_the_local_head_and_finds_the_ancestor() {
    let mut ours = MemChain::new();
    let mut theirs = MemChain::new();
    assert!(Downloader::master_head_header(&ours).is_none());
    for n in 0..6 {
        ours.try_connect(block(1, n)).unwrap();
    }
    for n in 0..9 {
        theirs.try_connect(block(1, n)).unwrap();
    }
    assert_eq!(Downloader::master_head_header(&ours).unwrap().number(), 5);
    let d = Downloader::new();
    assert_eq!(
        d.find_ancestor_header(&ours, &theirs, 5, true),
        Ancestor { number: 5, related: true }
    );
}
