use appchain_anchor::staking::StakingHistories;
use appchain_anchor::types::StakingFact;

fn fact(v: u64, amount: u128) -> StakingFact {
    StakingFact::StakeIncreased { validator_id: v, amount }
}

#[test]
fn ledger_indices_are_dense_from_zero() {
    let mut ledger = StakingHistories::new();
    for i in 0..5u64 {
        let record = ledger.append(fact(i, 10), 100 + i, 1000 + i);
        assert_eq!(record.index, i);
    }
    for i in 0..5u64 {
        let record = ledger.get(&i).unwrap();
        assert_eq!(record.index, i);
        assert_eq!(record.block_height, 100 + i);
        assert_eq!(record.timestamp, 1000 + i);
    }
    assert!(ledger.get(&5).is_none());
    let range = ledger.index_range();
    assert_eq!(range.start_index, 0);
    assert_eq!(range.end_index, 4);
}

#[test]
fn empty_ledger_range_is_zero() {
    let ledger = StakingHistories::new();
    let range = ledger.index_range();
    assert_eq!(range.start_index, 0);
    assert_eq!(range.end_index, 0);
    assert!(ledger.get(&0).is_none());
}

#[test]
fn append_returns_the_stored_record() {
    let mut ledger = StakingHistories::new();
    let stored = ledger.append(fact(7, 42), 11, 22);
    assert_eq!(ledger.get(&0), Some(stored));
}
