use appchain_anchor::anchor::{AppchainAnchor, StakingDepositMessage};
use appchain_anchor::era::ValidatorSetOfEra;
use appchain_anchor::types::AnchorError;

const DAY_NANOS: u128 = 86_400 * 1_000_000_000;

fn anchor_with_small_minimums() -> AppchainAnchor {
    let mut anchor = AppchainAnchor::new();
    anchor.change_minimum_validator_deposit(100);
    anchor.change_minimum_delegator_deposit(10);
    anchor
}

fn validator_total(anchor: &AppchainAnchor, id: u64) -> Option<u128> {
    anchor
        .next_validator_set
        .validators
        .iter()
        .find(|v| v.validator_id == id)
        .map(|v| v.total_stake)
}

#[test]
fn register_and_delegate_then_unbond_cascades() {
    let mut anchor = anchor_with_small_minimums();
    anchor.register_validator(1, 100, 10_000, true, 5, 6).unwrap();
    anchor.register_delegator(9, 1, 1000, 7, 8).unwrap();
    assert_eq!(validator_total(&anchor, 1), Some(11_000));
    assert_eq!(anchor.next_validator_set.total_stake, 11_000);
    anchor.unbond_stake(1, 9, 10).unwrap();
    assert_eq!(validator_total(&anchor, 1), None);
    assert!(anchor.next_validator_set.delegators.is_empty());
    assert!(anchor.next_validator_set.validator_to_delegator_index.is_empty());
    assert!(anchor.next_validator_set.delegator_to_validator_index.is_empty());
    assert_eq!(anchor.next_validator_set.total_stake, 0);
    // The whole ledger remembers all three actions.
    assert_eq!(anchor.staking_histories.index_range().end_index, 2);
}

#[test]
fn registration_guards_reject_in_order() {
    let mut anchor = anchor_with_small_minimums();
    anchor.register_validator(1, 100, 10_000, true, 5, 6).unwrap();
    assert_eq!(
        anchor.register_validator(1, 101, 10_000, true, 5, 6),
        Err(AnchorError::ValidatorAlreadyRegistered)
    );
    assert_eq!(
        anchor.register_validator(2, 100, 10_000, true, 5, 6),
        Err(AnchorError::AppchainAccountAlreadyRegistered)
    );
    assert_eq!(
        anchor.register_validator(2, 102, 99, true, 5, 6),
        Err(AnchorError::DepositTooFew)
    );
    assert_eq!(
        anchor.register_delegator(9, 1, 9, 7, 8),
        Err(AnchorError::DepositTooFew)
    );
    assert_eq!(
        anchor.register_delegator(9, 3, 1000, 7, 8),
        Err(AnchorError::ValidatorNotFound)
    );
}

#[test]
fn decrease_below_minimum_is_rejected_and_changes_nothing() {
    let mut anchor = anchor_with_small_minimums();
    anchor.register_validator(1, 100, 150, true, 5, 6).unwrap();
    let err = anchor.decrease_stake(1, 51, 7, 8);
    assert_eq!(err, Err(AnchorError::DepositTooFew));
    assert_eq!(validator_total(&anchor, 1), Some(150));
    assert_eq!(anchor.next_validator_set.total_stake, 150);
    assert_eq!(anchor.staking_histories.index_range().end_index, 0);
    assert!(anchor.unbonded_stakes.is_empty());
    // Decreasing more than the whole deposit is an arithmetic rejection.
    assert_eq!(anchor.decrease_stake(1, 151, 7, 8), Err(AnchorError::AmountExceedsBalance));
}

#[test]
fn withdraw_before_unlock_returns_zero_and_keeps_the_reference() {
    let mut anchor = anchor_with_small_minimums();
    anchor.register_validator(1, 100, 1000, true, 5, 6).unwrap();
    anchor.decrease_stake(1, 200, 7, 8).unwrap();
    assert_eq!(anchor.unbonded_stakes.len(), 1);
    assert_eq!(anchor.unbonded_stakes[0].1.era_number, 1);
    // Seal eras 0 and 1; the reference waits on era 1's start.
    let era_start: u64 = 1_000_000;
    anchor.validator_set_histories.insert(&0, ValidatorSetOfEra::new(0, 0, 1, 500_000)).unwrap();
    anchor.validator_set_histories.insert(&1, ValidatorSetOfEra::new(1, 1, 2, era_start)).unwrap();
    let before = era_start + 1;
    let got = anchor.withdraw_stake(1, before).unwrap();
    assert_eq!(got, 0);
    assert_eq!(anchor.unbonded_stakes.len(), 1);
    // After the 21-day validator unlock period the full amount is due
    // and the reference is dropped.
    let after = (era_start as u128 + 21 * DAY_NANOS) as u64;
    let got = anchor.withdraw_stake(1, after).unwrap();
    assert_eq!(got, 200);
    assert!(anchor.unbonded_stakes.is_empty());
    // A later withdrawal has nothing left.
    assert_eq!(anchor.withdraw_stake(1, after).unwrap(), 0);
}

#[test]
fn withdraw_before_era_is_sealed_is_rejected() {
    let mut anchor = anchor_with_small_minimums();
    anchor.register_validator(1, 100, 1000, true, 5, 6).unwrap();
    anchor.decrease_stake(1, 200, 7, 8).unwrap();
    assert_eq!(anchor.withdraw_stake(1, u64::MAX), Err(AnchorError::ReferenceNotFound));
}

#[test]
fn delegator_unlock_period_is_shorter() {
    let mut anchor = anchor_with_small_minimums();
    anchor.register_validator(1, 100, 1000, true, 5, 6).unwrap();
    anchor.register_delegator(9, 1, 500, 7, 8).unwrap();
    anchor.unbond_delegation(9, 1, 9, 10).unwrap();
    let era_start: u64 = 1_000_000;
    anchor.validator_set_histories.insert(&0, ValidatorSetOfEra::new(0, 0, 1, 500_000)).unwrap();
    anchor.validator_set_histories.insert(&1, ValidatorSetOfEra::new(1, 1, 2, era_start)).unwrap();
    let after_seven_days = (era_start as u128 + 7 * DAY_NANOS) as u64;
    assert_eq!(anchor.withdraw_stake(9, after_seven_days).unwrap(), 500);
}

#[test]
fn reward_window_sums_and_forfeits() {
    let mut anchor = AppchainAnchor::new();
    anchor.change_maximum_era_count_of_unwithdrawn_reward(2);
    for era in 0..4u64 {
        anchor
            .validator_set_histories
            .insert(&era, ValidatorSetOfEra::new(era, 0, 1, 100 + era))
            .unwrap();
    }
    // end era is 3; the window is [1, 3).
    anchor.unwithdrawn_validator_rewards.push((0, 1, 10)); // forfeited
    anchor.unwithdrawn_validator_rewards.push((1, 1, 20));
    anchor.unwithdrawn_validator_rewards.push((2, 1, 40));
    anchor.unwithdrawn_validator_rewards.push((3, 1, 80)); // not yet claimable
    anchor.unwithdrawn_validator_rewards.push((2, 2, 7)); // someone else
    let got = anchor.withdraw_validator_rewards(1).unwrap();
    assert_eq!(got, 60);
    assert_eq!(
        anchor.unwithdrawn_validator_rewards,
        vec![(0, 1, 10), (3, 1, 80), (2, 2, 7)]
    );
    // Delegator rewards follow the same window.
    anchor.unwithdrawn_delegator_rewards.push((1, 9, 1, 5));
    anchor.unwithdrawn_delegator_rewards.push((2, 9, 1, 6));
    anchor.unwithdrawn_delegator_rewards.push((2, 9, 2, 100));
    let got = anchor.withdraw_delegator_rewards(9, 1).unwrap();
    assert_eq!(got, 11);
    assert_eq!(anchor.unwithdrawn_delegator_rewards, vec![(2, 9, 2, 100)]);
}

#[test]
fn deposits_dispatch_on_the_attached_message() {
    let mut anchor = anchor_with_small_minimums();
    let refund = anchor
        .process_oct_deposit(
            1,
            5000,
            StakingDepositMessage::RegisterValidator {
                validator_id_in_appchain: 100,
                can_be_delegated_to: true,
            },
            5,
            6,
        )
        .unwrap();
    assert_eq!(refund, 0);
    let refund = anchor
        .process_oct_deposit(1, 500, StakingDepositMessage::IncreaseStake, 7, 8)
        .unwrap();
    assert_eq!(refund, 0);
    let refund = anchor
        .process_oct_deposit(
            9,
            300,
            StakingDepositMessage::RegisterDelegator { validator_id: 1 },
            9,
            10,
        )
        .unwrap();
    assert_eq!(refund, 0);
    let refund = anchor
        .process_oct_deposit(
            9,
            200,
            StakingDepositMessage::IncreaseDelegation { validator_id: 1 },
            11,
            12,
        )
        .unwrap();
    assert_eq!(refund, 0);
    assert_eq!(validator_total(&anchor, 1), Some(6000));
    // A rejected action reports its error so the caller can refund.
    assert_eq!(
        anchor.process_oct_deposit(9, 1, StakingDepositMessage::IncreaseStake, 13, 14),
        Err(AnchorError::ValidatorNotFound)
    );
}

#[test]
fn default_settings_match_the_protocol() {
    let anchor = AppchainAnchor::new();
    let s = anchor.protocol_settings;
    assert_eq!(s.minimum_validator_deposit, 10_000 * 1_000_000_000_000_000_000);
    assert_eq!(s.minimum_delegator_deposit, 1000 * 1_000_000_000_000_000_000);
    assert_eq!(s.maximum_validators_per_delegator, 16);
    assert_eq!(s.unlock_period_of_validator_deposit, 21);
    assert_eq!(s.unlock_period_of_delegator_deposit, 7);
    assert_eq!(s.maximum_era_count_of_unwithdrawn_reward, 84);
    assert_eq!(s.delegation_fee_percent, 20);
}

#[test]
fn delegator_limit_is_enforced() {
    let mut anchor = anchor_with_small_minimums();
    anchor.change_maximum_validators_per_delegator(2);
    anchor.register_validator(1, 100, 1000, true, 5, 6).unwrap();
    anchor.register_validator(2, 200, 1000, true, 5, 6).unwrap();
    anchor.register_validator(3, 300, 1000, true, 5, 6).unwrap();
    anchor.register_delegator(9, 1, 100, 7, 8).unwrap();
    anchor.register_delegator(9, 2, 100, 7, 8).unwrap();
    assert_eq!(
        anchor.register_delegator(9, 3, 100, 7, 8),
        Err(AnchorError::TooManyValidatorsDelegated)
    );
}

#[test]
fn pending_unbonded_stake_blocks_re_registration() {
    let mut anchor = anchor_with_small_minimums();
    anchor.register_validator(1, 100, 1000, true, 5, 6).unwrap();
    anchor.unbond_stake(1, 7, 8).unwrap();
    assert_eq!(
        anchor.register_validator(1, 101, 1000, true, 9, 10),
        Err(AnchorError::UnbondedStakePending)
    );
}
