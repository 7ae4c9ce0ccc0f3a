use chain_sync::block::PeerInfo;
use chain_sync::hash::compare_bytes32;
use chain_sync::hash::HashValue;
use chain_sync::hash::U256;
use chain_sync::order::Order;
use chain_sync::order::Ranked;

fn word(last: u8) -> [u8; 32] {
    let mut b = [0u8; 32];
    b[31] = last;
    b
}

#[test]
fn compare_bytes32_is_big_endian() {
    let mut high_first = [0u8; 32];
    high_first[0] = 1;
    assert_eq!(compare_bytes32(&word(1), &word(2)), Order::Less);
    assert_eq!(compare_bytes32(&word(2), &word(1)), Order::Greater);
    assert_eq!(compare_bytes32(&word(2), &word(2)), Order::Equal);
    assert_eq!(compare_bytes32(&high_first, &word(255)), Order::Greater);
    assert_eq!(compare_bytes32(&word(255), &high_first), Order::Less);
    assert_eq!(compare_bytes32(&[0u8; 32], &[0u8; 32]), Order::Equal);
    assert_eq!(compare_bytes32(&[0xffu8; 32], &[0xffu8; 32]), Order::Equal);
    assert_eq!(compare_bytes32(&[0u8; 32], &[0xffu8; 32]), Order::Less);
}

#[test]
fn hash_from_slice_takes_exactly_32_bytes() {
    assert_eq!(HashValue::from_slice(&[7u8; 32]), Some(HashValue::new([7u8; 32])));
    assert_eq!(HashValue::from_slice(&[7u8; 31]), None);
    assert_eq!(HashValue::from_slice(&[7u8; 33]), None);
    assert_eq!(HashValue::from_slice(&[]), None);
    let bytes: Vec<u8> = (0u8..32).collect();
    let h = HashValue::from_slice(&bytes).unwrap();
    assert_eq!(h.to_vec(), bytes);
}

#[test]
fn hash_zero_is_all_zero() {
    assert_eq!(HashValue::zero().to_vec(), vec![0u8; 32]);
    assert_eq!(HashValue::LENGTH, 32);
}

#[test]
fn hash_equals_and_compare() {
    let a = HashValue::new(word(1));
    let b = HashValue::new(word(2));
    assert!(a.equals(&a));
    assert!(!a.equals(&b));
    assert_eq!(a.compare(&b), Order::Less);
    assert_eq!(b.compare(&a), Order::Greater);
    assert_eq!(a.compare(&a), Order::Equal);
}

#[test]
fn u256_orders_as_a_number() {
    let one = U256::new(word(1));
    let two = U256::new(word(2));
    assert!(one.at_most(&two));
    assert!(one.at_most(&one));
    assert!(!two.at_most(&one));
    assert_eq!(one.compare(&two), Order::Less);
    assert_eq!(two.compare(&one), Order::Greater);
    assert_eq!(two.compare(&two), Order::Equal);
    assert_eq!(U256::from_hash(&HashValue::new(word(9))), U256::new(word(9)));
}

#[test]
fn u64_compares_as_a_number() {
    assert_eq!(3u64.compare(&4), Order::Less);
    assert_eq!(4u64.compare(&4), Order::Equal);
    assert_eq!(5u64.compare(&4), Order::Greater);
}

#[test]
fn peer_info_equals_compares_every_field() {
    let p = PeerInfo::new(HashValue::new(word(1)), 5, U256::new(word(9)));
    assert!(p.equals(&p));
    assert!(!p.equals(&PeerInfo::new(HashValue::new(word(2)), 5, U256::new(word(9)))));
    assert!(!p.equals(&PeerInfo::new(HashValue::new(word(1)), 6, U256::new(word(9)))));
    assert!(!p.equals(&PeerInfo::new(HashValue::new(word(1)), 5, U256::new(word(8)))));
    assert_eq!(p.get_peer_id(), HashValue::new(word(1)));
    assert_eq!(p.get_block_number(), 5);
}
