use appchain_anchor::types::{AnchorError, StakingFact, StakingHistory};
use appchain_anchor::validator_set::ValidatorSet;

fn apply(set: &mut ValidatorSet, fact: StakingFact) -> Result<(), AnchorError> {
    set.apply_staking_history(&StakingHistory { staking_fact: fact, block_height: 1, timestamp: 2, index: 0 })
}

fn validator_of(set: &ValidatorSet, id: u64) -> Option<(u128, u128, bool)> {
    set.validators
        .iter()
        .find(|v| v.validator_id == id)
        .map(|v| (v.deposit_amount, v.total_stake, v.can_be_delegated_to))
}

#[test]
fn register_then_increase_stake_adds_to_deposit_and_total() {
    let mut set = ValidatorSet::new(0);
    apply(
        &mut set,
        StakingFact::ValidatorRegistered {
            validator_id: 1,
            validator_id_in_appchain: 100,
            amount: 5000,
            can_be_delegated_to: true,
        },
    )
    .unwrap();
    apply(&mut set, StakingFact::StakeIncreased { validator_id: 1, amount: 300 }).unwrap();
    assert_eq!(validator_of(&set, 1), Some((5300, 5300, true)));
    assert_eq!(set.total_stake, 5300);
}

#[test]
fn delegator_registration_raises_total_stake_only() {
    let mut set = ValidatorSet::new(0);
    apply(
        &mut set,
        StakingFact::ValidatorRegistered {
            validator_id: 1,
            validator_id_in_appchain: 100,
            amount: 10_000,
            can_be_delegated_to: true,
        },
    )
    .unwrap();
    apply(
        &mut set,
        StakingFact::DelegatorRegistered { delegator_id: 9, validator_id: 1, amount: 1000 },
    )
    .unwrap();
    let (deposit, total, _) = validator_of(&set, 1).unwrap();
    assert_eq!(deposit, 10_000);
    assert_eq!(total, 11_000);
    assert_eq!(set.total_stake, 11_000);
    assert!(set.validator_to_delegator_index.contains(&(1, 9)));
    assert!(set.delegator_to_validator_index.contains(&(9, 1)));
}

#[test]
fn unbonding_a_validator_cascades_over_its_delegators() {
    let mut set = ValidatorSet::new(0);
    apply(
        &mut set,
        StakingFact::ValidatorRegistered {
            validator_id: 1,
            validator_id_in_appchain: 100,
            amount: 10_000,
            can_be_delegated_to: true,
        },
    )
    .unwrap();
    apply(
        &mut set,
        StakingFact::ValidatorRegistered {
            validator_id: 2,
            validator_id_in_appchain: 200,
            amount: 20_000,
            can_be_delegated_to: true,
        },
    )
    .unwrap();
    apply(
        &mut set,
        StakingFact::DelegatorRegistered { delegator_id: 9, validator_id: 1, amount: 1000 },
    )
    .unwrap();
    apply(
        &mut set,
        StakingFact::DelegatorRegistered { delegator_id: 9, validator_id: 2, amount: 700 },
    )
    .unwrap();
    let before = set.total_stake;
    let (_, unbonded_total, _) = validator_of(&set, 1).unwrap();
    apply(&mut set, StakingFact::ValidatorUnbonded { validator_id: 1, amount: 10_000 }).unwrap();
    // The validator and every delegation to it are gone, from the table
    // and from both cross-index lists.
    assert!(validator_of(&set, 1).is_none());
    assert!(set.delegators.iter().all(|d| d.validator_id != 1));
    assert!(set.validator_to_delegator_index.iter().all(|p| p.0 != 1));
    assert!(set.delegator_to_validator_index.iter().all(|p| p.1 != 1));
    // The delegation to the other validator survives.
    assert!(set.delegators.iter().any(|d| d.delegator_id == 9 && d.validator_id == 2));
    assert_eq!(set.total_stake, before - unbonded_total);
    assert_eq!(set.total_stake, 20_700);
}

#[test]
fn decrease_beyond_balance_is_rejected_unchanged() {
    let mut set = ValidatorSet::new(0);
    apply(
        &mut set,
        StakingFact::ValidatorRegistered {
            validator_id: 1,
            validator_id_in_appchain: 100,
            amount: 500,
            can_be_delegated_to: false,
        },
    )
    .unwrap();
    let err = apply(&mut set, StakingFact::StakeDecreased { validator_id: 1, amount: 501 });
    assert_eq!(err, Err(AnchorError::AmountExceedsBalance));
    assert_eq!(validator_of(&set, 1), Some((500, 500, false)));
    assert_eq!(set.total_stake, 500);
}

#[test]
fn duplicate_validator_registration_is_rejected() {
    let mut set = ValidatorSet::new(0);
    apply(
        &mut set,
        StakingFact::ValidatorRegistered {
            validator_id: 1,
            validator_id_in_appchain: 100,
            amount: 500,
            can_be_delegated_to: false,
        },
    )
    .unwrap();
    let err = apply(
        &mut set,
        StakingFact::ValidatorRegistered {
            validator_id: 1,
            validator_id_in_appchain: 101,
            amount: 900,
            can_be_delegated_to: false,
        },
    );
    assert_eq!(err, Err(AnchorError::ValidatorAlreadyRegistered));
    assert_eq!(set.total_stake, 500);
}

#[test]
fn delegation_toggle_flips_the_flag_only() {
    let mut set = ValidatorSet::new(0);
    apply(
        &mut set,
        StakingFact::ValidatorRegistered {
            validator_id: 1,
            validator_id_in_appchain: 100,
            amount: 500,
            can_be_delegated_to: false,
        },
    )
    .unwrap();
    apply(&mut set, StakingFact::ValidatorDelegationEnabled { validator_id: 1 }).unwrap();
    assert_eq!(validator_of(&set, 1), Some((500, 500, true)));
    apply(&mut set, StakingFact::ValidatorDelegationDisabled { validator_id: 1 }).unwrap();
    assert_eq!(validator_of(&set, 1), Some((500, 500, false)));
    assert_eq!(set.total_stake, 500);
}

#[test]
fn delegator_unbonded_prunes_both_index_lists() {
    let mut set = ValidatorSet::new(0);
    apply(
        &mut set,
        StakingFact::ValidatorRegistered {
            validator_id: 1,
            validator_id_in_appchain: 100,
            amount: 10_000,
            can_be_delegated_to: true,
        },
    )
    .unwrap();
    apply(
        &mut set,
        StakingFact::DelegatorRegistered { delegator_id: 9, validator_id: 1, amount: 1000 },
    )
    .unwrap();
    apply(
        &mut set,
        StakingFact::DelegatorUnbonded { delegator_id: 9, validator_id: 1, amount: 1000 },
    )
    .unwrap();
    assert!(set.delegators.is_empty());
    assert!(set.validator_to_delegator_index.is_empty());
    assert!(set.delegator_to_validator_index.is_empty());
    assert_eq!(set.total_stake, 10_000);
}
