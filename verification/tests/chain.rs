use chain_sync::block::Block;
use chain_sync::block::BlockBody;
use chain_sync::block::BlockHeader;
use chain_sync::block::BlockInfo;
use chain_sync::chain::ChainError;
use chain_sync::chain::MemChain;
use chain_sync::hash::HashValue;
use chain_sync::hash::U256;
use chain_sync::order::Order;
use chain_sync::order::Ranked;

fn id(branch: u8, number: u64) -> HashValue {
    let mut b = [0u8; 32];
    b[0] = branch;
    b[24..32].copy_from_slice(&number.to_be_bytes());
    HashValue::new(b)
}

fn block(branch: u8, number: u64, parent: HashValue) -> Block {
    let me = id(branch, number);
    Block {
        header: BlockHeader {
            id: me,
            parent_id: parent,
            number,
            difficulty: U256::new([0xffu8; 32]),
            consensus_header: vec![],
        },
        body: BlockBody { block_id: me, payload: vec![number as u8] },
        info: BlockInfo { block_id: me, payload: vec![] },
    }
}

fn chain_of(branch: u8, len: u64) -> MemChain {
    let mut chain = MemChain::new();
    let mut parent = HashValue::zero();
    for n in 0..len {
        let b = block(branch, n, parent);
        parent = b.header.id;
        chain.try_connect(b).unwrap();
    }
    chain
}

#[test]
fn new_chain_has_no_head() {
    let chain = MemChain::new();
    assert_eq!(chain.len(), 0);
    assert!(chain.master_head_header().is_none());
    assert_eq!(chain.header_id_at(0), None);
    assert!(chain.block_at(0).is_none());
}

#[test]
fn connect_extends_the_chain_by_one() {
    let chain = chain_of(1, 4);
    assert_eq!(chain.len(), 4);
    let head = chain.master_head_header().unwrap();
    assert_eq!(head.number(), 3);
    assert_eq!(head.id(), id(1, 3));
    assert_eq!(head.parent_id(), id(1, 2));
    assert_eq!(chain.header_id_at(2), Some(id(1, 2)));
    assert_eq!(chain.header_id_at(4), None);
    assert_eq!(chain.block_at(1).unwrap().body.payload, vec![1]);
}

#[test]
fn connect_refuses_a_skipped_height() {
    let mut chain = chain_of(1, 3);
    let b = block(1, 4, id(1, 2));
    assert_eq!(chain.try_connect(b), Err(ChainError::NotNext));
    assert_eq!(chain.len(), 3);
}

#[test]
fn connect_refuses_an_applied_height() {
    let mut chain = chain_of(1, 3);
    let b = block(1, 2, id(1, 1));
    assert_eq!(chain.try_connect(b), Err(ChainError::NotNext));
    assert_eq!(chain.len(), 3);
}

#[test]
fn connect_refuses_a_first_block_above_zero() {
    let mut chain = MemChain::new();
    assert_eq!(chain.try_connect(block(1, 1, id(1, 0))), Err(ChainError::NotNext));
    assert_eq!(chain.len(), 0);
}

#[test]
fn connect_refuses_another_parent() {
    let mut chain = chain_of(1, 3);
    let b = block(1, 3, id(2, 2));
    assert_eq!(chain.try_connect(b), Err(ChainError::ParentMismatch));
    assert_eq!(chain.len(), 3);
}

#[test]
fn connect_refuses_a_body_of_another_block() {
    let mut chain = chain_of(1, 3);
    let mut b = block(1, 3, id(1, 2));
    b.body.block_id = id(9, 9);
    assert_eq!(chain.try_connect(b), Err(ChainError::Misaligned));
    let mut b = block(1, 3, id(1, 2));
    b.info.block_id = id(9, 9);
    assert_eq!(chain.try_connect(b), Err(ChainError::Misaligned));
    assert_eq!(chain.len(), 3);
}

#[test]
fn rollback_drops_what_is_above() {
    let mut chain = chain_of(1, 6);
    chain.rollback_to(2);
    assert_eq!(chain.len(), 3);
    assert_eq!(chain.master_head_header().unwrap().id(), id(1, 2));
    chain.rollback_to(10);
    assert_eq!(chain.len(), 3);
    chain.rollback_to(0);
    assert_eq!(chain.len(), 1);
}

#[test]
fn blocks_and_headers_are_ordered_by_identifier() {
    let a = block(1, 5, id(1, 4));
    let b = block(2, 5, id(1, 4));
    assert_eq!(a.compare(&b), Order::Less);
    assert_eq!(b.compare(&a), Order::Greater);
    assert_eq!(a.compare(&a.duplicate()), Order::Equal);
    assert_eq!(a.header.compare(&b.header), Order::Less);
    assert_eq!(a.header().id(), id(1, 5));
    assert!(a.is_aligned());
    assert_eq!(a.duplicate(), a);
    assert_eq!(a.header.duplicate(), a.header);
    assert_eq!(a.header.difficult(), U256::new([0xffu8; 32]));
    assert!(a.header.consensus_header().is_empty());
}
