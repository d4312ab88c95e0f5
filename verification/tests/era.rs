use appchain_anchor::era::{ValidatorSetOfEra, ValidatorSetProcessingStatus};
use appchain_anchor::staking::StakingHistories;
use appchain_anchor::types::{StakingFact, StakingHistory};
use appchain_anchor::validator_set::ValidatorSet;

fn seeded_set(entries: &[(u64, u64, u128)], delegations: &[(u64, u64, u128)]) -> ValidatorSet {
    let mut set = ValidatorSet::new(0);
    for (id, appchain_id, amount) in entries {
        set.apply_staking_history(&StakingHistory {
            staking_fact: StakingFact::ValidatorRegistered {
                validator_id: *id,
                validator_id_in_appchain: *appchain_id,
                amount: *amount,
                can_be_delegated_to: true,
            },
            block_height: 1,
            timestamp: 2,
            index: 0,
        })
        .unwrap();
    }
    for (d, v, amount) in delegations {
        set.apply_staking_history(&StakingHistory {
            staking_fact: StakingFact::DelegatorRegistered {
                delegator_id: *d,
                validator_id: *v,
                amount: *amount,
            },
            block_height: 1,
            timestamp: 2,
            index: 0,
        })
        .unwrap();
    }
    set
}

fn run_to_ready(era: &mut ValidatorSetOfEra, previous: &ValidatorSet, ledger: &StakingHistories) {
    while !era.process_copying_step(previous, 0).unwrap() {}
    while !era.process_applying_step(ledger).unwrap() {}
    while !era.process_making_list_step().unwrap() {}
}

#[test]
fn is_ready_only_in_the_ready_phase() {
    assert!(!ValidatorSetProcessingStatus::CopyingFromLastEra {
        copying_validator_index: 0,
        copying_delegator_index: 0,
    }
    .is_ready_for_distributing_reward());
    assert!(!ValidatorSetProcessingStatus::ApplyingStakingHistory { applying_index: 3 }
        .is_ready_for_distributing_reward());
    assert!(!ValidatorSetProcessingStatus::MakingValidatorList { making_index: 0 }
        .is_ready_for_distributing_reward());
    assert!(ValidatorSetProcessingStatus::ReadyForDistributingReward
        .is_ready_for_distributing_reward());
    assert!(!ValidatorSetProcessingStatus::DistributingReward {
        distributing_validator_index: 0,
        distributing_delegator_index: 0,
    }
    .is_ready_for_distributing_reward());
    assert!(!ValidatorSetProcessingStatus::Completed.is_ready_for_distributing_reward());
}

#[test]
fn phases_advance_in_order_and_resume() {
    let previous = seeded_set(&[(1, 100, 10_000), (2, 200, 5000)], &[(9, 1, 1000)]);
    let ledger = StakingHistories::new();
    let mut era = ValidatorSetOfEra::new(1, 0, 50, 60);
    // Copying: one record per call, validators first.
    assert!(!era.process_copying_step(&previous, 0).unwrap());
    assert!(!era.process_copying_step(&previous, 0).unwrap());
    assert!(!era.process_copying_step(&previous, 0).unwrap());
    assert!(era.process_copying_step(&previous, 0).unwrap());
    assert_eq!(era.validator_set.validators.len(), 2);
    assert_eq!(era.validator_set.delegators.len(), 1);
    assert_eq!(era.validator_set.total_stake, 16_000);
    // Applying: the ledger is empty, so the phase completes at once.
    assert!(era.process_applying_step(&ledger).unwrap());
    // Making the list: one row per call.
    assert!(!era.process_making_list_step().unwrap());
    assert!(!era.process_making_list_step().unwrap());
    assert!(era.process_making_list_step().unwrap());
    assert_eq!(era.validator_list.len(), 2);
    assert!(era.processing_status.is_ready_for_distributing_reward());
}

#[test]
fn payout_goes_wholly_to_a_sole_validator() {
    let previous = seeded_set(&[(1, 100, 10_000)], &[]);
    let ledger = StakingHistories::new();
    let mut era = ValidatorSetOfEra::new(1, 0, 50, 60);
    run_to_ready(&mut era, &previous, &ledger);
    era.set_unprofitable_validator_ids(Vec::new());
    era.calculate_valid_total_stake().unwrap();
    assert_eq!(era.valid_total_stake, 10_000);
    era.start_distributing_reward().unwrap();
    let mut validator_rewards: Vec<(u64, u64, u128)> = Vec::new();
    let mut delegator_rewards: Vec<(u64, u64, u64, u128)> = Vec::new();
    assert!(!era
        .distribute_reward_step(1000, 20, &mut validator_rewards, &mut delegator_rewards)
        .unwrap());
    assert!(era
        .distribute_reward_step(1000, 20, &mut validator_rewards, &mut delegator_rewards)
        .unwrap());
    assert_eq!(era.processing_status, ValidatorSetProcessingStatus::Completed);
    assert_eq!(validator_rewards, vec![(1, 1, 1000)]);
    assert!(delegator_rewards.is_empty());
}

#[test]
fn payout_splits_between_validator_and_delegator() {
    let previous = seeded_set(&[(1, 100, 750)], &[(9, 1, 250)]);
    let ledger = StakingHistories::new();
    let mut era = ValidatorSetOfEra::new(1, 0, 50, 60);
    run_to_ready(&mut era, &previous, &ledger);
    era.set_unprofitable_validator_ids(Vec::new());
    era.calculate_valid_total_stake().unwrap();
    assert_eq!(era.valid_total_stake, 1000);
    era.start_distributing_reward().unwrap();
    let mut validator_rewards: Vec<(u64, u64, u128)> = Vec::new();
    let mut delegator_rewards: Vec<(u64, u64, u64, u128)> = Vec::new();
    while !era
        .distribute_reward_step(1000, 20, &mut validator_rewards, &mut delegator_rewards)
        .unwrap()
    {}
    // The validator's deposit-weighted cut is 750, plus a 20% fee on the
    // delegator's 250 share; the delegator keeps the rest.
    assert_eq!(validator_rewards, vec![(1, 1, 800)]);
    assert_eq!(delegator_rewards, vec![(1, 9, 1, 200)]);
}

#[test]
fn unprofitable_validator_is_skipped() {
    let previous = seeded_set(&[(1, 100, 600), (2, 200, 400)], &[]);
    let ledger = StakingHistories::new();
    let mut era = ValidatorSetOfEra::new(1, 0, 50, 60);
    run_to_ready(&mut era, &previous, &ledger);
    era.set_unprofitable_validator_ids(vec![2, 2]);
    assert_eq!(era.unprofitable_validator_id_set, vec![2]);
    era.calculate_valid_total_stake().unwrap();
    assert_eq!(era.valid_total_stake, 600);
    era.start_distributing_reward().unwrap();
    let mut validator_rewards: Vec<(u64, u64, u128)> = Vec::new();
    let mut delegator_rewards: Vec<(u64, u64, u64, u128)> = Vec::new();
    while !era
        .distribute_reward_step(1000, 20, &mut validator_rewards, &mut delegator_rewards)
        .unwrap()
    {}
    // The sole profitable validator holds all of the eligible stake.
    assert_eq!(validator_rewards, vec![(1, 1, 1000)]);
    assert!(delegator_rewards.is_empty());
}

#[test]
fn applying_phase_folds_ledger_entries() {
    let previous = ValidatorSet::new(0);
    let mut ledger = StakingHistories::new();
    ledger.append(
        StakingFact::ValidatorRegistered {
            validator_id: 1,
            validator_id_in_appchain: 100,
            amount: 4000,
            can_be_delegated_to: true,
        },
        5,
        6,
    );
    ledger.append(StakingFact::StakeIncreased { validator_id: 1, amount: 500 }, 7, 8);
    // The era's marker points at the last fact belonging to it.
    let mut era = ValidatorSetOfEra::new(0, 1, 50, 60);
    while !era.process_copying_step(&previous, 0).unwrap() {}
    while !era.process_applying_step(&ledger).unwrap() {}
    assert_eq!(era.validator_set.total_stake, 4500);
    let info = era.to_validator_set_info();
    assert_eq!(info.total_stake, 4500);
    assert_eq!(info.era_number, 0);
    assert_eq!(info.staking_history_index, 1);
}
