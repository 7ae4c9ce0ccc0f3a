use chain_sync::argon_consensus::u64_to_vec;
use chain_sync::argon_consensus::ArgonConsensus;
use chain_sync::block::Block;
use chain_sync::block::BlockBody;
use chain_sync::block::BlockHeader;
use chain_sync::block::BlockInfo;
use chain_sync::chain::MemChain;
use chain_sync::dummy::DummyConsensus;
use chain_sync::hash::HashValue;
use chain_sync::hash::U256;
use chain_sync::process::ProcessStatus;
use chain_sync::process::Processor;

fn id(branch: u8, number: u64) -> HashValue {
    let mut b = [0u8; 32];
    b[0] = branch;
    b[24..32].copy_from_slice(&number.to_be_bytes());
    HashValue::new(b)
}

fn block(branch: u8, number: u64, parent: HashValue) -> Block {
    let me = id(branch, number);
    Block {
        header: BlockHeader {
            id: me,
            parent_id: parent,
            number,
            difficulty: U256::new([0xffu8; 32]),
            consensus_header: u64_to_vec(1),
        },
        body: BlockBody { block_id: me, payload: vec![] },
        info: BlockInfo { block_id: me, payload: vec![] },
    }
}

/// Blocks `from..to` of branch 1.
fn run(from: u64, to: u64) -> Vec<Block> {
    (from..to)
        .map(|n| block(1, n, if n == 0 { HashValue::zero() } else { id(1, n - 1) }))
        .collect()
}

fn chain_of(len: u64) -> MemChain {
    let mut chain = MemChain::new();
    for b in run(0, len) {
        chain.try_connect(b).unwrap();
    }
    chain
}

#[test]
fn process_applies_a_contiguous_run() {
    let mut chain = chain_of(3);
    let out = Processor::<DummyConsensus>::new().process(&mut chain, run(3, 8));
    assert_eq!(out.applied, 5);
    assert_eq!(out.status, ProcessStatus::Drained);
    assert!(out.leftover.is_empty());
    assert_eq!(chain.len(), 8);
    assert_eq!(chain.master_head_header().unwrap().id(), id(1, 7));
}

#[test]
fn process_of_nothing_does_nothing() {
    let mut chain = chain_of(3);
    let out = Processor::<DummyConsensus>::new().process(&mut chain, vec![]);
    assert_eq!(out.applied, 0);
    assert_eq!(out.status, ProcessStatus::Drained);
    assert_eq!(chain.len(), 3);
}

#[test]
fn process_fills_an_empty_chain_from_genesis() {
    let mut chain = MemChain::new();
    let out = Processor::<DummyConsensus>::new().process(&mut chain, run(0, 4));
    assert_eq!(out.applied, 4);
    assert_eq!(chain.len(), 4);
}

#[test]
fn process_does_not_apply_a_height_twice() {
    let mut chain = chain_of(5);
    let out = Processor::<DummyConsensus>::new().process(&mut chain, run(2, 7));
    assert_eq!(out.applied, 2);
    assert_eq!(out.status, ProcessStatus::Drained);
    assert_eq!(chain.len(), 7);
}

#[test]
fn process_defers_at_a_gap() {
    let mut chain = chain_of(3);
    let mut entries = run(3, 5);
    entries.extend(run(6, 8));
    let out = Processor::<DummyConsensus>::new().process(&mut chain, entries);
    assert_eq!(out.applied, 2);
    assert_eq!(out.status, ProcessStatus::Deferred);
    assert_eq!(out.leftover, run(6, 8));
    assert_eq!(chain.len(), 5);
}

#[test]
fn process_defers_when_the_first_entry_is_above_the_head() {
    let mut chain = chain_of(3);
    let out = Processor::<DummyConsensus>::new().process(&mut chain, run(4, 6));
    assert_eq!(out.applied, 0);
    assert_eq!(out.status, ProcessStatus::Deferred);
    assert_eq!(out.leftover, run(4, 6));
    assert_eq!(chain.len(), 3);
}

#[test]
fn process_halts_at_a_header_that_fails_verification() {
    let mut chain = chain_of(3);
    let mut entries = run(3, 7);
    // No proof of work meets the lowest difficulty.
    entries[2].header.difficulty = U256::new([0u8; 32]);
    let out = Processor::<ArgonConsensus>::new().process(&mut chain, entries);
    assert_eq!(out.applied, 2);
    assert_eq!(out.status, ProcessStatus::VerificationFailed);
    assert_eq!(out.leftover, run(6, 7));
    assert_eq!(chain.len(), 5);
    assert_eq!(chain.master_head_header().unwrap().id(), id(1, 4));
}

#[test]
fn process_halts_at_a_block_with_another_parent() {
    let mut chain = chain_of(3);
    let mut entries = run(3, 6);
    entries[1].header.parent_id = id(9, 3);
    let out = Processor::<DummyConsensus>::new().process(&mut chain, entries);
    assert_eq!(out.applied, 1);
    assert_eq!(out.status, ProcessStatus::Rejected);
    assert_eq!(out.leftover, run(5, 6));
    assert_eq!(chain.len(), 4);
}

#[test]
fn process_applies_heights_one_by_one() {
    let mut chain = chain_of(1);
    Processor::<DummyConsensus>::new().process(&mut chain, run(1, 20));
    for n in 0..20 {
        let b = chain.block_at(n).unwrap();
        assert_eq!(b.header.number, n);
        if n > 0 {
            assert_eq!(b.header.parent_id, chain.header_id_at(n - 1).unwrap());
        }
    }
}
