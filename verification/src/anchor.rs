//! The anchor: the single store object holding the staking ledger, the
//! live validator set of the next era, the sealed era history, and the
//! withdrawal and reward bookkeeping. Every mutating operation either
//! commits completely or rejects with an error and changes nothing.

use vstd::prelude::*;

use crate::era::ValidatorSetHistories;
use crate::era::ValidatorSetOfEra;
use crate::settings::ProtocolSettings;
use crate::staking::{StakingHistories, UnbondedStakeReference};
use crate::types::{AccountId, AccountIdInAppchain, AnchorError, Balance, BlockHeight, StakingFact,
    StakingHistory, Timestamp};
use crate::validator_set::{delegator_index, spec_apply_staking_fact, validator_index,
    count_pairs_with_left, find_validator, find_delegator, ValidatorSet, ValidatorSetView};

verus! {

/// A staking action carried in the memo of a token deposit.
#[derive(Clone, Copy, PartialEq, Eq, Structural, Debug)]
pub enum StakingDepositMessage {
    /// Register the sender as a validator; the deposit is its stake.
    RegisterValidator {
        validator_id_in_appchain: AccountIdInAppchain,
        can_be_delegated_to: bool,
    },
    /// Add the deposit to the sender's validator stake.
    IncreaseStake,
    /// Register the sender as a delegator of `validator_id`.
    RegisterDelegator { validator_id: AccountId },
    /// Add the deposit to the sender's delegation to `validator_id`.
    IncreaseDelegation { validator_id: AccountId },
}

/// The mathematical content of an [`AppchainAnchor`].
#[verifier::ext_equal]
pub ghost struct AppchainAnchorView {
    pub protocol_settings: ProtocolSettings,
    pub next_validator_set: ValidatorSetView,
    pub eras: Seq<ValidatorSetOfEra>,
    pub eras_end_index: u64,
    pub ledger: Seq<StakingHistory>,
    pub mapping: Seq<(AccountIdInAppchain, AccountId)>,
    pub unbonded_stakes: Seq<(AccountId, UnbondedStakeReference)>,
    pub validator_rewards: Seq<(u64, AccountId, Balance)>,
    pub delegator_rewards: Seq<(u64, AccountId, AccountId, Balance)>,
}

/// The anchor's state.
pub struct AppchainAnchor {
    /// The configured protocol settings.
    pub protocol_settings: ProtocolSettings,
    /// The live snapshot accumulating for the next era.
    pub next_validator_set: ValidatorSet,
    /// The sealed eras, by era number.
    pub validator_set_histories: ValidatorSetHistories,
    /// The append-only staking ledger.
    pub staking_histories: StakingHistories,
    /// External-chain account to anchor account, one pair per validator.
    pub validator_account_id_mapping: Vec<(AccountIdInAppchain, AccountId)>,
    /// Pending time-locked withdrawals, one entry per unbonding action.
    pub unbonded_stakes: Vec<(AccountId, UnbondedStakeReference)>,
    /// Unwithdrawn validator rewards: (era, validator, amount).
    pub unwithdrawn_validator_rewards: Vec<(u64, AccountId, Balance)>,
    /// Unwithdrawn delegator rewards: (era, delegator, validator, amount).
    pub unwithdrawn_delegator_rewards: Vec<(u64, AccountId, AccountId, Balance)>,
}

impl View for AppchainAnchor {
    type V = AppchainAnchorView;

    open spec fn view(&self) -> AppchainAnchorView {
        AppchainAnchorView {
            protocol_settings: self.protocol_settings,
            next_validator_set: self.next_validator_set@,
            eras: self.validator_set_histories.eras(),
            eras_end_index: self.validator_set_histories.end_index(),
            ledger: self.staking_histories.records(),
            mapping: self.validator_account_id_mapping@,
            unbonded_stakes: self.unbonded_stakes@,
            validator_rewards: self.unwithdrawn_validator_rewards@,
            delegator_rewards: self.unwithdrawn_delegator_rewards@,
        }
    }
}

/// Whether `account` still holds a pending unbonded-stake reference.
pub open spec fn has_unbonded_stakes(
    s: Seq<(AccountId, UnbondedStakeReference)>,
    account: AccountId,
) -> bool {
    exists|i: int| 0 <= i < s.len() && (#[trigger] s[i]).0 == account
}

/// Whether the external-chain account is already mapped to a validator.
pub open spec fn appchain_account_mapped(
    s: Seq<(AccountIdInAppchain, AccountId)>,
    id_in_appchain: AccountIdInAppchain,
) -> bool {
    exists|i: int| 0 <= i < s.len() && (#[trigger] s[i]).0 == id_in_appchain
}

/// Recording a staking fact: the next ledger index is assigned, the fact
/// is folded into the live snapshot, and both commit together — or the
/// fact is rejected and nothing changes.
pub open spec fn spec_record_fact(
    a: AppchainAnchorView,
    fact: StakingFact,
    block_height: BlockHeight,
    timestamp: Timestamp,
) -> Result<(AppchainAnchorView, u64), AnchorError> {
    if a.ledger.len() >= u64::MAX {
        Err(AnchorError::ArithmeticOverflow)
    } else {
        match spec_apply_staking_fact(a.next_validator_set, fact, block_height, timestamp) {
            Ok(m) => {
                let index = a.ledger.len() as u64;
                Ok(
                    (
                        AppchainAnchorView {
                            next_validator_set: m,
                            ledger: a.ledger.push(
                                StakingHistory { staking_fact: fact, block_height, timestamp, index },
                            ),
                            ..a
                        },
                        index,
                    ),
                )
            },
            Err(e) => Err(e),
        }
    }
}

/// Recording an unbonding: the unlock clock starts at the era after the
/// latest sealed one, pointing back at the ledger entry `index`.
pub open spec fn spec_push_unbonded(
    a: AppchainAnchorView,
    account: AccountId,
    index: u64,
) -> AppchainAnchorView {
    AppchainAnchorView {
        unbonded_stakes: a.unbonded_stakes.push(
            (
                account,
                UnbondedStakeReference {
                    era_number: (a.eras_end_index + 1) as u64,
                    staking_history_index: index,
                },
            ),
        ),
        ..a
    }
}

/// Registering a validator, checked in order: the account must not be a
/// validator already, must hold no pending unbonded stake, its
/// external-chain account must be unmapped, and the deposit must reach the
/// configured minimum; then the fact is recorded and the account mapped.
pub open spec fn spec_register_validator(
    a: AppchainAnchorView,
    validator_id: AccountId,
    validator_id_in_appchain: AccountIdInAppchain,
    deposit_amount: Balance,
    can_be_delegated_to: bool,
    block_height: BlockHeight,
    timestamp: Timestamp,
) -> Result<AppchainAnchorView, AnchorError> {
    if validator_index(a.next_validator_set.validators, validator_id) >= 0 {
        Err(AnchorError::ValidatorAlreadyRegistered)
    } else if has_unbonded_stakes(a.unbonded_stakes, validator_id) {
        Err(AnchorError::UnbondedStakePending)
    } else if appchain_account_mapped(a.mapping, validator_id_in_appchain) {
        Err(AnchorError::AppchainAccountAlreadyRegistered)
    } else if deposit_amount < a.protocol_settings.minimum_validator_deposit {
        Err(AnchorError::DepositTooFew)
    } else {
        match spec_record_fact(
            a,
            StakingFact::ValidatorRegistered {
                validator_id,
                validator_id_in_appchain,
                amount: deposit_amount,
                can_be_delegated_to,
            },
            block_height,
            timestamp,
        ) {
            Ok((a2, _)) => Ok(
                AppchainAnchorView {
                    mapping: a2.mapping.push((validator_id_in_appchain, validator_id)),
                    ..a2
                },
            ),
            Err(e) => Err(e),
        }
    }
}

/// Increasing a validator's own stake: recorded directly; the snapshot
/// transition rejects an unknown validator or an overflowing balance.
pub open spec fn spec_increase_stake(
    a: AppchainAnchorView,
    validator_id: AccountId,
    amount: Balance,
    block_height: BlockHeight,
    timestamp: Timestamp,
) -> Result<AppchainAnchorView, AnchorError> {
    match spec_record_fact(
        a,
        StakingFact::StakeIncreased { validator_id, amount },
        block_height,
        timestamp,
    ) {
        Ok((a2, _)) => Ok(a2),
        Err(e) => Err(e),
    }
}

/// Registering a delegator, checked in order: the (delegator, validator)
/// pair must be new, the delegator must hold no pending unbonded stake and
/// not exceed the per-delegator validator limit, and the deposit must
/// reach the configured minimum; then the fact is recorded.
pub open spec fn spec_register_delegator(
    a: AppchainAnchorView,
    delegator_id: AccountId,
    validator_id: AccountId,
    deposit_amount: Balance,
    block_height: BlockHeight,
    timestamp: Timestamp,
) -> Result<AppchainAnchorView, AnchorError> {
    if delegator_index(a.next_validator_set.delegators, delegator_id, validator_id) >= 0 {
        Err(AnchorError::DelegatorAlreadyRegistered)
    } else if has_unbonded_stakes(a.unbonded_stakes, delegator_id) {
        Err(AnchorError::UnbondedStakePending)
    } else if count_pairs_with_left(a.next_validator_set.d2v, delegator_id)
        >= a.protocol_settings.maximum_validators_per_delegator {
        Err(AnchorError::TooManyValidatorsDelegated)
    } else if deposit_amount < a.protocol_settings.minimum_delegator_deposit {
        Err(AnchorError::DepositTooFew)
    } else {
        match spec_record_fact(
            a,
            StakingFact::DelegatorRegistered {
                delegator_id,
                validator_id,
                amount: deposit_amount,
            },
            block_height,
            timestamp,
        ) {
            Ok((a2, _)) => Ok(a2),
            Err(e) => Err(e),
        }
    }
}

/// Increasing a delegation: recorded directly; the snapshot transition
/// rejects an unknown pair or an overflowing balance.
pub open spec fn spec_increase_delegation(
    a: AppchainAnchorView,
    delegator_id: AccountId,
    validator_id: AccountId,
    amount: Balance,
    block_height: BlockHeight,
    timestamp: Timestamp,
) -> Result<AppchainAnchorView, AnchorError> {
    match spec_record_fact(
        a,
        StakingFact::DelegationIncreased { delegator_id, validator_id, amount },
        block_height,
        timestamp,
    ) {
        Ok((a2, _)) => Ok(a2),
        Err(e) => Err(e),
    }
}

impl AppchainAnchor {
    /// The anchor's structural invariant: its two histories are well
    /// formed.
    pub open spec fn well_formed(self) -> bool {
        &&& self.staking_histories.well_formed()
        &&& self.validator_set_histories.well_formed()
    }

    /// A fresh anchor with default settings, an empty ledger, an empty
    /// era history and an empty live snapshot for era zero.
    pub fn new() -> (r: Self)
        ensures
            r.well_formed(),
            r@.protocol_settings == ProtocolSettings::spec_default(),
            r@.eras =~= Seq::<ValidatorSetOfEra>::empty(),
            r@.ledger =~= Seq::<StakingHistory>::empty(),
            r@.mapping =~= Seq::<(AccountIdInAppchain, AccountId)>::empty(),
            r@.unbonded_stakes =~= Seq::<(AccountId, UnbondedStakeReference)>::empty(),
            r@.validator_rewards =~= Seq::<(u64, AccountId, Balance)>::empty(),
            r@.delegator_rewards =~= Seq::<(u64, AccountId, AccountId, Balance)>::empty(),
            r@.next_validator_set.validators =~= Seq::<
                crate::validator_set::Validator,
            >::empty(),
            r@.next_validator_set.delegators =~= Seq::<
                crate::validator_set::Delegator,
            >::empty(),
            r@.next_validator_set.total_stake == 0,
    {
        AppchainAnchor {
            protocol_settings: ProtocolSettings::default(),
            next_validator_set: ValidatorSet::new(0),
            validator_set_histories: ValidatorSetHistories::new(),
            staking_histories: StakingHistories::new(),
            validator_account_id_mapping: Vec::new(),
            unbonded_stakes: Vec::new(),
            unwithdrawn_validator_rewards: Vec::new(),
            unwithdrawn_delegator_rewards: Vec::new(),
        }
    }

    /// Records one staking fact, as [`spec_record_fact`] says: the ledger
    /// and the live snapshot move together, or neither does.
    fn record_staking_fact(
        &mut self,
        staking_fact: StakingFact,
        block_height: BlockHeight,
        timestamp: Timestamp,
    ) -> (r: Result<u64, AnchorError>)
        requires
            old(self).well_formed(),
        ensures
            final(self).well_formed(),
            (match spec_record_fact(old(self)@, staking_fact, block_height, timestamp) {
                Ok((av, index)) => r == Ok::<u64, AnchorError>(index) && final(self)@ == av,
                Err(e) => r == Err::<u64, AnchorError>(e) && final(self)@ == old(self)@,
            }),
    {
        let ghost pre = self@;
        let index = self.staking_histories.count();
        if index == u64::MAX {
            return Err(AnchorError::ArithmeticOverflow);
        }
        let record = StakingHistory { staking_fact, block_height, timestamp, index };
        let applied = self.next_validator_set.apply_staking_history(&record);
        match applied {
            Ok(_) => {
                let stored = self.staking_histories.append(staking_fact, block_height, timestamp);
                proof {
                    assert(stored == record);
                    assert(self@ =~= (match spec_record_fact(
                        pre,
                        staking_fact,
                        block_height,
                        timestamp,
                    ) {
                        Ok((av, _)) => av,
                        Err(_) => pre,
                    }));
                }
                Ok(index)
            },
            Err(e) => {
                proof {
                    assert(self@ =~= pre);
                }
                Err(e)
            },
        }
    }
}


/// Decreasing a validator's own stake, checked in order: the validator
/// must exist, the amount must not exceed its deposit, and the remaining
/// deposit must stay at or above the configured minimum; then the fact is
/// recorded and a time-locked withdrawal reference stored.
pub open spec fn spec_decrease_stake(
    a: AppchainAnchorView,
    validator_id: AccountId,
    amount: Balance,
    block_height: BlockHeight,
    timestamp: Timestamp,
) -> Result<AppchainAnchorView, AnchorError> {
    let i = validator_index(a.next_validator_set.validators, validator_id);
    if i < 0 {
        Err(AnchorError::ValidatorNotFound)
    } else if amount > a.next_validator_set.validators[i].deposit_amount {
        Err(AnchorError::AmountExceedsBalance)
    } else if a.next_validator_set.validators[i].deposit_amount - amount
        < a.protocol_settings.minimum_validator_deposit {
        Err(AnchorError::DepositTooFew)
    } else {
        match spec_record_fact(
            a,
            StakingFact::StakeDecreased { validator_id, amount },
            block_height,
            timestamp,
        ) {
            Ok((a2, index)) => Ok(spec_push_unbonded(a2, validator_id, index)),
            Err(e) => Err(e),
        }
    }
}

/// Unbonding a validator entirely: the validator must exist; the fact
/// carries its whole deposit, and a time-locked withdrawal reference is
/// stored.
pub open spec fn spec_unbond_stake(
    a: AppchainAnchorView,
    validator_id: AccountId,
    block_height: BlockHeight,
    timestamp: Timestamp,
) -> Result<AppchainAnchorView, AnchorError> {
    let i = validator_index(a.next_validator_set.validators, validator_id);
    if i < 0 {
        Err(AnchorError::ValidatorNotFound)
    } else {
        match spec_record_fact(
            a,
            StakingFact::ValidatorUnbonded {
                validator_id,
                amount: a.next_validator_set.validators[i].deposit_amount,
            },
            block_height,
            timestamp,
        ) {
            Ok((a2, index)) => Ok(spec_push_unbonded(a2, validator_id, index)),
            Err(e) => Err(e),
        }
    }
}

/// Decreasing a delegation, checked in order: the pair must exist, the
/// amount must not exceed the delegated deposit, and the remainder must
/// stay at or above the configured minimum; then the fact is recorded and
/// a time-locked withdrawal reference stored.
pub open spec fn spec_decrease_delegation(
    a: AppchainAnchorView,
    delegator_id: AccountId,
    validator_id: AccountId,
    amount: Balance,
    block_height: BlockHeight,
    timestamp: Timestamp,
) -> Result<AppchainAnchorView, AnchorError> {
    let i = delegator_index(a.next_validator_set.delegators, delegator_id, validator_id);
    if i < 0 {
        Err(AnchorError::DelegatorNotFound)
    } else if amount > a.next_validator_set.delegators[i].deposit_amount {
        Err(AnchorError::AmountExceedsBalance)
    } else if a.next_validator_set.delegators[i].deposit_amount - amount
        < a.protocol_settings.minimum_delegator_deposit {
        Err(AnchorError::DepositTooFew)
    } else {
        match spec_record_fact(
            a,
            StakingFact::DelegationDecreased { delegator_id, validator_id, amount },
            block_height,
            timestamp,
        ) {
            Ok((a2, index)) => Ok(spec_push_unbonded(a2, delegator_id, index)),
            Err(e) => Err(e),
        }
    }
}

/// Unbonding a delegation entirely: the pair must exist; the fact carries
/// the whole delegated deposit, and a time-locked withdrawal reference is
/// stored.
pub open spec fn spec_unbond_delegation(
    a: AppchainAnchorView,
    delegator_id: AccountId,
    validator_id: AccountId,
    block_height: BlockHeight,
    timestamp: Timestamp,
) -> Result<AppchainAnchorView, AnchorError> {
    let i = delegator_index(a.next_validator_set.delegators, delegator_id, validator_id);
    if i < 0 {
        Err(AnchorError::DelegatorNotFound)
    } else {
        match spec_record_fact(
            a,
            StakingFact::DelegatorUnbonded {
                delegator_id,
                validator_id,
                amount: a.next_validator_set.delegators[i].deposit_amount,
            },
            block_height,
            timestamp,
        ) {
            Ok((a2, index)) => Ok(spec_push_unbonded(a2, delegator_id, index)),
            Err(e) => Err(e),
        }
    }
}

/// Whether `unbonded_stakes` holds an entry for `account`.
fn find_unbonded_stakes(
    unbonded_stakes: &Vec<(AccountId, UnbondedStakeReference)>,
    account: AccountId,
) -> (r: bool)
    ensures
        r == has_unbonded_stakes(unbonded_stakes@, account),
{
    let mut i: usize = 0;
    while i < unbonded_stakes.len()
        invariant
            i <= unbonded_stakes@.len(),
            forall|j: int| 0 <= j < i ==> (#[trigger] unbonded_stakes@[j]).0 != account,
        decreases unbonded_stakes@.len() - i,
    {
        if unbonded_stakes[i].0 == account {
            return true;
        }
        i += 1;
    }
    false
}

/// Whether `mapping` already maps the external-chain account.
fn find_mapping(
    mapping: &Vec<(AccountIdInAppchain, AccountId)>,
    id_in_appchain: AccountIdInAppchain,
) -> (r: bool)
    ensures
        r == appchain_account_mapped(mapping@, id_in_appchain),
{
    let mut i: usize = 0;
    while i < mapping.len()
        invariant
            i <= mapping@.len(),
            forall|j: int| 0 <= j < i ==> (#[trigger] mapping@[j]).0 != id_in_appchain,
        decreases mapping@.len() - i,
    {
        if mapping[i].0 == id_in_appchain {
            return true;
        }
        i += 1;
    }
    false
}

impl AppchainAnchor {
    /// Registers `validator_id` as a validator with `deposit_amount`, as
    /// [`spec_register_validator`] says.
    pub fn register_validator(
        &mut self,
        validator_id: AccountId,
        validator_id_in_appchain: AccountIdInAppchain,
        deposit_amount: Balance,
        can_be_delegated_to: bool,
        block_height: BlockHeight,
        timestamp: Timestamp,
    ) -> (r: Result<(), AnchorError>)
        requires
            old(self).well_formed(),
        ensures
            final(self).well_formed(),
            (match spec_register_validator(
                old(self)@,
                validator_id,
                validator_id_in_appchain,
                deposit_amount,
                can_be_delegated_to,
                block_height,
                timestamp,
            ) {
                Ok(av) => r is Ok && final(self)@ == av,
                Err(e) => r == Err::<(), AnchorError>(e) && final(self)@ == old(self)@,
            }),
    {
        let ghost pre = self@;
        let found = find_validator(&self.next_validator_set.validators, validator_id);
        if found.is_some() {
            return Err(AnchorError::ValidatorAlreadyRegistered);
        }
        if find_unbonded_stakes(&self.unbonded_stakes, validator_id) {
            return Err(AnchorError::UnbondedStakePending);
        }
        if find_mapping(&self.validator_account_id_mapping, validator_id_in_appchain) {
            return Err(AnchorError::AppchainAccountAlreadyRegistered);
        }
        if deposit_amount < self.protocol_settings.minimum_validator_deposit {
            return Err(AnchorError::DepositTooFew);
        }
        let recorded = self.record_staking_fact(
            StakingFact::ValidatorRegistered {
                validator_id,
                validator_id_in_appchain,
                amount: deposit_amount,
                can_be_delegated_to,
            },
            block_height,
            timestamp,
        );
        match recorded {
            Ok(_) => {
                self.validator_account_id_mapping.push((validator_id_in_appchain, validator_id));
                proof {
                    assert(self@ =~= (match spec_register_validator(
                        pre,
                        validator_id,
                        validator_id_in_appchain,
                        deposit_amount,
                        can_be_delegated_to,
                        block_height,
                        timestamp,
                    ) {
                        Ok(av) => av,
                        Err(_) => pre,
                    }));
                }
                Ok(())
            },
            Err(e) => Err(e),
        }
    }

    /// Adds `amount` to the validator's own stake, as
    /// [`spec_increase_stake`] says.
    pub fn increase_stake(
        &mut self,
        validator_id: AccountId,
        amount: Balance,
        block_height: BlockHeight,
        timestamp: Timestamp,
    ) -> (r: Result<(), AnchorError>)
        requires
            old(self).well_formed(),
        ensures
            final(self).well_formed(),
            (match spec_increase_stake(old(self)@, validator_id, amount, block_height, timestamp) {
                Ok(av) => r is Ok && final(self)@ == av,
                Err(e) => r == Err::<(), AnchorError>(e) && final(self)@ == old(self)@,
            }),
    {
        let recorded = self.record_staking_fact(
            StakingFact::StakeIncreased { validator_id, amount },
            block_height,
            timestamp,
        );
        match recorded {
            Ok(_) => Ok(()),
            Err(e) => Err(e),
        }
    }

    /// Registers a delegation of `delegator_id` to `validator_id`, as
    /// [`spec_register_delegator`] says.
    pub fn register_delegator(
        &mut self,
        delegator_id: AccountId,
        validator_id: AccountId,
        deposit_amount: Balance,
        block_height: BlockHeight,
        timestamp: Timestamp,
    ) -> (r: Result<(), AnchorError>)
        requires
            old(self).well_formed(),
        ensures
            final(self).well_formed(),
            (match spec_register_delegator(
                old(self)@,
                delegator_id,
                validator_id,
                deposit_amount,
                block_height,
                timestamp,
            ) {
                Ok(av) => r is Ok && final(self)@ == av,
                Err(e) => r == Err::<(), AnchorError>(e) && final(self)@ == old(self)@,
            }),
    {
        let found = find_delegator(
            &self.next_validator_set.delegators,
            delegator_id,
            validator_id,
        );
        if found.is_some() {
            return Err(AnchorError::DelegatorAlreadyRegistered);
        }
        if find_unbonded_stakes(&self.unbonded_stakes, delegator_id) {
            return Err(AnchorError::UnbondedStakePending);
        }
        let delegation_count = crate::validator_set::count_pairs_left(
            &self.next_validator_set.delegator_to_validator_index,
            delegator_id,
        );
        if delegation_count >= self.protocol_settings.maximum_validators_per_delegator {
            return Err(AnchorError::TooManyValidatorsDelegated);
        }
        if deposit_amount < self.protocol_settings.minimum_delegator_deposit {
            return Err(AnchorError::DepositTooFew);
        }
        let recorded = self.record_staking_fact(
            StakingFact::DelegatorRegistered { delegator_id, validator_id, amount: deposit_amount },
            block_height,
            timestamp,
        );
        match recorded {
            Ok(_) => Ok(()),
            Err(e) => Err(e),
        }
    }

    /// Adds `amount` to an existing delegation, as
    /// [`spec_increase_delegation`] says.
    pub fn increase_delegation(
        &mut self,
        delegator_id: AccountId,
        validator_id: AccountId,
        amount: Balance,
        block_height: BlockHeight,
        timestamp: Timestamp,
    ) -> (r: Result<(), AnchorError>)
        requires
            old(self).well_formed(),
        ensures
            final(self).well_formed(),
            (match spec_increase_delegation(
                old(self)@,
                delegator_id,
                validator_id,
                amount,
                block_height,
                timestamp,
            ) {
                Ok(av) => r is Ok && final(self)@ == av,
                Err(e) => r == Err::<(), AnchorError>(e) && final(self)@ == old(self)@,
            }),
    {
        let recorded = self.record_staking_fact(
            StakingFact::DelegationIncreased { delegator_id, validator_id, amount },
            block_height,
            timestamp,
        );
        match recorded {
            Ok(_) => Ok(()),
            Err(e) => Err(e),
        }
    }

    /// Handles one verified token deposit: dispatches on the attached
    /// staking message and returns the amount to refund — zero on success,
    /// or the error that rejected the action (the caller then refunds the
    /// whole deposit).
    pub fn process_oct_deposit(
        &mut self,
        sender_id: AccountId,
        amount: Balance,
        msg: StakingDepositMessage,
        block_height: BlockHeight,
        timestamp: Timestamp,
    ) -> (r: Result<Balance, AnchorError>)
        requires
            old(self).well_formed(),
        ensures
            final(self).well_formed(),
            (match msg {
                StakingDepositMessage::RegisterValidator {
                    validator_id_in_appchain,
                    can_be_delegated_to,
                } => {
                    match spec_register_validator(
                        old(self)@,
                        sender_id,
                        validator_id_in_appchain,
                        amount,
                        can_be_delegated_to,
                        block_height,
                        timestamp,
                    ) {
                        Ok(av) => r == Ok::<Balance, AnchorError>(0) && final(self)@ == av,
                        Err(e) => r == Err::<Balance, AnchorError>(e) && final(self)@ == old(self)@,
                    }
                },
                StakingDepositMessage::IncreaseStake => {
                    match spec_increase_stake(
                        old(self)@,
                        sender_id,
                        amount,
                        block_height,
                        timestamp,
                    ) {
                        Ok(av) => r == Ok::<Balance, AnchorError>(0) && final(self)@ == av,
                        Err(e) => r == Err::<Balance, AnchorError>(e) && final(self)@ == old(self)@,
                    }
                },
                StakingDepositMessage::RegisterDelegator { validator_id } => {
                    match spec_register_delegator(
                        old(self)@,
                        sender_id,
                        validator_id,
                        amount,
                        block_height,
                        timestamp,
                    ) {
                        Ok(av) => r == Ok::<Balance, AnchorError>(0) && final(self)@ == av,
                        Err(e) => r == Err::<Balance, AnchorError>(e) && final(self)@ == old(self)@,
                    }
                },
                StakingDepositMessage::IncreaseDelegation { validator_id } => {
                    match spec_increase_delegation(
                        old(self)@,
                        sender_id,
                        validator_id,
                        amount,
                        block_height,
                        timestamp,
                    ) {
                        Ok(av) => r == Ok::<Balance, AnchorError>(0) && final(self)@ == av,
                        Err(e) => r == Err::<Balance, AnchorError>(e) && final(self)@ == old(self)@,
                    }
                },
            }),
    {
        match msg {
            StakingDepositMessage::RegisterValidator {
                validator_id_in_appchain,
                can_be_delegated_to,
            } => {
                let done = self.register_validator(
                    sender_id,
                    validator_id_in_appchain,
                    amount,
                    can_be_delegated_to,
                    block_height,
                    timestamp,
                );
                match done {
                    Ok(_) => Ok(0),
                    Err(e) => Err(e),
                }
            },
            StakingDepositMessage::IncreaseStake => {
                let done = self.increase_stake(sender_id, amount, block_height, timestamp);
                match done {
                    Ok(_) => Ok(0),
                    Err(e) => Err(e),
                }
            },
            StakingDepositMessage::RegisterDelegator { validator_id } => {
                let done = self.register_delegator(
                    sender_id,
                    validator_id,
                    amount,
                    block_height,
                    timestamp,
                );
                match done {
                    Ok(_) => Ok(0),
                    Err(e) => Err(e),
                }
            },
            StakingDepositMessage::IncreaseDelegation { validator_id } => {
                let done = self.increase_delegation(
                    sender_id,
                    validator_id,
                    amount,
                    block_height,
                    timestamp,
                );
                match done {
                    Ok(_) => Ok(0),
                    Err(e) => Err(e),
                }
            },
        }
    }
}


impl AppchainAnchor {
    /// Stores the time-locked reference for an unbonding recorded at
    /// ledger `index`: the unlock clock starts at the era after the latest
    /// sealed one.
    fn push_unbonded_reference(&mut self, account: AccountId, index: u64)
        requires
            old(self).well_formed(),
        ensures
            final(self).well_formed(),
            final(self)@ == spec_push_unbonded(old(self)@, account, index),
    {
        proof {
            self.validator_set_histories.lemma_well_formed();
        }
        let era_number = self.validator_set_histories.index_range().end_index + 1;
        self.unbonded_stakes.push(
            (account, UnbondedStakeReference { era_number, staking_history_index: index }),
        );
        proof {
            assert(self@ =~= spec_push_unbonded(old(self)@, account, index));
        }
    }

    /// Decreases the validator's own stake by `amount`, as
    /// [`spec_decrease_stake`] says.
    pub fn decrease_stake(
        &mut self,
        validator_id: AccountId,
        amount: Balance,
        block_height: BlockHeight,
        timestamp: Timestamp,
    ) -> (r: Result<(), AnchorError>)
        requires
            old(self).well_formed(),
        ensures
            final(self).well_formed(),
            (match spec_decrease_stake(old(self)@, validator_id, amount, block_height, timestamp) {
                Ok(av) => r is Ok && final(self)@ == av,
                Err(e) => r == Err::<(), AnchorError>(e) && final(self)@ == old(self)@,
            }),
    {
        let found = find_validator(&self.next_validator_set.validators, validator_id);
        match found {
            None => Err(AnchorError::ValidatorNotFound),
            Some(i) => {
                let deposit = self.next_validator_set.validators[i].deposit_amount;
                if amount > deposit {
                    return Err(AnchorError::AmountExceedsBalance);
                }
                if deposit - amount < self.protocol_settings.minimum_validator_deposit {
                    return Err(AnchorError::DepositTooFew);
                }
                let recorded = self.record_staking_fact(
                    StakingFact::StakeDecreased { validator_id, amount },
                    block_height,
                    timestamp,
                );
                match recorded {
                    Ok(index) => {
                        self.push_unbonded_reference(validator_id, index);
                        Ok(())
                    },
                    Err(e) => Err(e),
                }
            },
        }
    }

    /// Unbonds the validator entirely, as [`spec_unbond_stake`] says.
    pub fn unbond_stake(
        &mut self,
        validator_id: AccountId,
        block_height: BlockHeight,
        timestamp: Timestamp,
    ) -> (r: Result<(), AnchorError>)
        requires
            old(self).well_formed(),
        ensures
            final(self).well_formed(),
            (match spec_unbond_stake(old(self)@, validator_id, block_height, timestamp) {
                Ok(av) => r is Ok && final(self)@ == av,
                Err(e) => r == Err::<(), AnchorError>(e) && final(self)@ == old(self)@,
            }),
    {
        let found = find_validator(&self.next_validator_set.validators, validator_id);
        match found {
            None => Err(AnchorError::ValidatorNotFound),
            Some(i) => {
                let deposit = self.next_validator_set.validators[i].deposit_amount;
                let recorded = self.record_staking_fact(
                    StakingFact::ValidatorUnbonded { validator_id, amount: deposit },
                    block_height,
                    timestamp,
                );
                match recorded {
                    Ok(index) => {
                        self.push_unbonded_reference(validator_id, index);
                        Ok(())
                    },
                    Err(e) => Err(e),
                }
            },
        }
    }

    /// Lets the validator accept delegations again.
    pub fn enable_delegation(
        &mut self,
        validator_id: AccountId,
        block_height: BlockHeight,
        timestamp: Timestamp,
    ) -> (r: Result<(), AnchorError>)
        requires
            old(self).well_formed(),
        ensures
            final(self).well_formed(),
            (match spec_record_fact(
                old(self)@,
                StakingFact::ValidatorDelegationEnabled { validator_id },
                block_height,
                timestamp,
            ) {
                Ok((av, _)) => r is Ok && final(self)@ == av,
                Err(e) => r == Err::<(), AnchorError>(e) && final(self)@ == old(self)@,
            }),
    {
        let recorded = self.record_staking_fact(
            StakingFact::ValidatorDelegationEnabled { validator_id },
            block_height,
            timestamp,
        );
        match recorded {
            Ok(_) => Ok(()),
            Err(e) => Err(e),
        }
    }

    /// Stops the validator from accepting new delegations.
    pub fn disable_delegation(
        &mut self,
        validator_id: AccountId,
        block_height: BlockHeight,
        timestamp: Timestamp,
    ) -> (r: Result<(), AnchorError>)
        requires
            old(self).well_formed(),
        ensures
            final(self).well_formed(),
            (match spec_record_fact(
                old(self)@,
                StakingFact::ValidatorDelegationDisabled { validator_id },
                block_height,
                timestamp,
            ) {
                Ok((av, _)) => r is Ok && final(self)@ == av,
                Err(e) => r == Err::<(), AnchorError>(e) && final(self)@ == old(self)@,
            }),
    {
        let recorded = self.record_staking_fact(
            StakingFact::ValidatorDelegationDisabled { validator_id },
            block_height,
            timestamp,
        );
        match recorded {
            Ok(_) => Ok(()),
            Err(e) => Err(e),
        }
    }

    /// Decreases a delegation by `amount`, as [`spec_decrease_delegation`]
    /// says.
    pub fn decrease_delegation(
        &mut self,
        delegator_id: AccountId,
        validator_id: AccountId,
        amount: Balance,
        block_height: BlockHeight,
        timestamp: Timestamp,
    ) -> (r: Result<(), AnchorError>)
        requires
            old(self).well_formed(),
        ensures
            final(self).well_formed(),
            (match spec_decrease_delegation(
                old(self)@,
                delegator_id,
                validator_id,
                amount,
                block_height,
                timestamp,
            ) {
                Ok(av) => r is Ok && final(self)@ == av,
                Err(e) => r == Err::<(), AnchorError>(e) && final(self)@ == old(self)@,
            }),
    {
        let found = find_delegator(
            &self.next_validator_set.delegators,
            delegator_id,
            validator_id,
        );
        match found {
            None => Err(AnchorError::DelegatorNotFound),
            Some(i) => {
                let deposit = self.next_validator_set.delegators[i].deposit_amount;
                if amount > deposit {
                    return Err(AnchorError::AmountExceedsBalance);
                }
                if deposit - amount < self.protocol_settings.minimum_delegator_deposit {
                    return Err(AnchorError::DepositTooFew);
                }
                let recorded = self.record_staking_fact(
                    StakingFact::DelegationDecreased { delegator_id, validator_id, amount },
                    block_height,
                    timestamp,
                );
                match recorded {
                    Ok(index) => {
                        self.push_unbonded_reference(delegator_id, index);
                        Ok(())
                    },
                    Err(e) => Err(e),
                }
            },
        }
    }

    /// Unbonds a delegation entirely, as [`spec_unbond_delegation`] says.
    pub fn unbond_delegation(
        &mut self,
        delegator_id: AccountId,
        validator_id: AccountId,
        block_height: BlockHeight,
        timestamp: Timestamp,
    ) -> (r: Result<(), AnchorError>)
        requires
            old(self).well_formed(),
        ensures
            final(self).well_formed(),
            (match spec_unbond_delegation(
                old(self)@,
                delegator_id,
                validator_id,
                block_height,
                timestamp,
            ) {
                Ok(av) => r is Ok && final(self)@ == av,
                Err(e) => r == Err::<(), AnchorError>(e) && final(self)@ == old(self)@,
            }),
    {
        let found = find_delegator(
            &self.next_validator_set.delegators,
            delegator_id,
            validator_id,
        );
        match found {
            None => Err(AnchorError::DelegatorNotFound),
            Some(i) => {
                let deposit = self.next_validator_set.delegators[i].deposit_amount;
                let recorded = self.record_staking_fact(
                    StakingFact::DelegatorUnbonded { delegator_id, validator_id, amount: deposit },
                    block_height,
                    timestamp,
                );
                match recorded {
                    Ok(index) => {
                        self.push_unbonded_reference(delegator_id, index);
                        Ok(())
                    },
                    Err(e) => Err(e),
                }
            },
        }
    }
}


/// The summed unwithdrawn validator rewards of `account` in eras
/// `[start, end)`.
pub open spec fn sum_validator_rewards(
    s: Seq<(u64, AccountId, Balance)>,
    account: AccountId,
    start: u64,
    end: u64,
) -> int
    decreases s.len(),
{
    if s.len() == 0 {
        0
    } else {
        sum_validator_rewards(s.drop_last(), account, start, end) + {
            let e = s.last();
            if e.1 == account && start <= e.0 < end {
                e.2 as int
            } else {
                0
            }
        }
    }
}

/// The validator-reward entries that survive a withdrawal: everything not
/// summed by [`sum_validator_rewards`], in order.
pub open spec fn remaining_validator_rewards(
    s: Seq<(u64, AccountId, Balance)>,
    account: AccountId,
    start: u64,
    end: u64,
) -> Seq<(u64, AccountId, Balance)>
    decreases s.len(),
{
    if s.len() == 0 {
        s
    } else {
        let rest = remaining_validator_rewards(s.drop_last(), account, start, end);
        let e = s.last();
        if e.1 == account && start <= e.0 < end {
            rest
        } else {
            rest.push(e)
        }
    }
}

/// Reward sums over prefixes never exceed the sum over the whole ledger.
proof fn lemma_validator_rewards_prefix(
    s: Seq<(u64, AccountId, Balance)>,
    account: AccountId,
    start: u64,
    end: u64,
    i: int,
)
    requires
        0 <= i <= s.len(),
    ensures
        0 <= sum_validator_rewards(s.subrange(0, i), account, start, end),
        sum_validator_rewards(s.subrange(0, i), account, start, end) <= sum_validator_rewards(
            s,
            account,
            start,
            end,
        ),
    decreases s.len() - i,
{
    if i == s.len() {
        assert(s.subrange(0, i) =~= s);
        lemma_validator_rewards_nonneg(s, account, start, end);
    } else {
        lemma_validator_rewards_prefix(s, account, start, end, i + 1);
        let s1 = s.subrange(0, i + 1);
        assert(s1.drop_last() =~= s.subrange(0, i));
        assert(s1.last() == s[i]);
        lemma_validator_rewards_nonneg(s.subrange(0, i), account, start, end);
    }
}

/// Reward sums are nonnegative.
proof fn lemma_validator_rewards_nonneg(
    s: Seq<(u64, AccountId, Balance)>,
    account: AccountId,
    start: u64,
    end: u64,
)
    ensures
        0 <= sum_validator_rewards(s, account, start, end),
    decreases s.len(),
{
    if s.len() > 0 {
        lemma_validator_rewards_nonneg(s.drop_last(), account, start, end);
    }
}

/// The summed unwithdrawn rewards of the delegation of `delegator_id` to
/// `validator_id` in eras `[start, end)`.
pub open spec fn sum_delegator_rewards(
    s: Seq<(u64, AccountId, AccountId, Balance)>,
    delegator_id: AccountId,
    validator_id: AccountId,
    start: u64,
    end: u64,
) -> int
    decreases s.len(),
{
    if s.len() == 0 {
        0
    } else {
        sum_delegator_rewards(s.drop_last(), delegator_id, validator_id, start, end) + {
            let e = s.last();
            if e.1 == delegator_id && e.2 == validator_id && start <= e.0 < end {
                e.3 as int
            } else {
                0
            }
        }
    }
}

/// The delegator-reward entries that survive a withdrawal.
pub open spec fn remaining_delegator_rewards(
    s: Seq<(u64, AccountId, AccountId, Balance)>,
    delegator_id: AccountId,
    validator_id: AccountId,
    start: u64,
    end: u64,
) -> Seq<(u64, AccountId, AccountId, Balance)>
    decreases s.len(),
{
    if s.len() == 0 {
        s
    } else {
        let rest = remaining_delegator_rewards(
            s.drop_last(),
            delegator_id,
            validator_id,
            start,
            end,
        );
        let e = s.last();
        if e.1 == delegator_id && e.2 == validator_id && start <= e.0 < end {
            rest
        } else {
            rest.push(e)
        }
    }
}

/// As `lemma_validator_rewards_prefix`, for delegator rewards.
proof fn lemma_delegator_rewards_prefix(
    s: Seq<(u64, AccountId, AccountId, Balance)>,
    delegator_id: AccountId,
    validator_id: AccountId,
    start: u64,
    end: u64,
    i: int,
)
    requires
        0 <= i <= s.len(),
    ensures
        0 <= sum_delegator_rewards(s.subrange(0, i), delegator_id, validator_id, start, end),
        sum_delegator_rewards(s.subrange(0, i), delegator_id, validator_id, start, end)
            <= sum_delegator_rewards(s, delegator_id, validator_id, start, end),
    decreases s.len() - i,
{
    if i == s.len() {
        assert(s.subrange(0, i) =~= s);
        lemma_delegator_rewards_nonneg(s, delegator_id, validator_id, start, end);
    } else {
        lemma_delegator_rewards_prefix(s, delegator_id, validator_id, start, end, i + 1);
        let s1 = s.subrange(0, i + 1);
        assert(s1.drop_last() =~= s.subrange(0, i));
        assert(s1.last() == s[i]);
        lemma_delegator_rewards_nonneg(s.subrange(0, i), delegator_id, validator_id, start, end);
    }
}

/// Delegator-reward sums are nonnegative.
proof fn lemma_delegator_rewards_nonneg(
    s: Seq<(u64, AccountId, AccountId, Balance)>,
    delegator_id: AccountId,
    validator_id: AccountId,
    start: u64,
    end: u64,
)
    ensures
        0 <= sum_delegator_rewards(s, delegator_id, validator_id, start, end),
    decreases s.len(),
{
    if s.len() > 0 {
        lemma_delegator_rewards_nonneg(s.drop_last(), delegator_id, validator_id, start, end);
    }
}

/// The start of the claimable reward window ending just before `end_era`.
pub open spec fn reward_window_start(end_era: u64, window: u64) -> u64 {
    if end_era >= window {
        (end_era - window) as u64
    } else {
        0
    }
}

impl AppchainAnchor {
    /// Withdraws every unwithdrawn reward of `validator_id` within the
    /// retention window of recent eras; older entries are forfeited and
    /// retained entries untouched. Returns the summed amount; the caller
    /// performs the transfer.
    pub fn withdraw_validator_rewards(&mut self, validator_id: AccountId) -> (r: Result<
        Balance,
        AnchorError,
    >)
        requires
            old(self).well_formed(),
        ensures
            final(self).well_formed(),
            ({
                let end_era = old(self)@.eras_end_index;
                let start_era = reward_window_start(
                    end_era,
                    old(self)@.protocol_settings.maximum_era_count_of_unwithdrawn_reward,
                );
                let total = sum_validator_rewards(
                    old(self)@.validator_rewards,
                    validator_id,
                    start_era,
                    end_era,
                );
                if total > u128::MAX {
                    r == Err::<Balance, AnchorError>(AnchorError::ArithmeticOverflow) && final(self)@ == old(self)@
                } else {
                    &&& r == Ok::<Balance, AnchorError>(total as Balance)
                    &&& final(self)@ == (AppchainAnchorView {
                        validator_rewards: remaining_validator_rewards(
                            old(self)@.validator_rewards,
                            validator_id,
                            start_era,
                            end_era,
                        ),
                        ..old(self)@
                    })
                }
            }),
    {
        let ghost pre = self@;
        let end_era = self.validator_set_histories.index_range().end_index;
        let window = self.protocol_settings.maximum_era_count_of_unwithdrawn_reward;
        let start_era: u64 = if end_era >= window {
            end_era - window
        } else {
            0
        };
        let ghost s0: Seq<(u64, AccountId, Balance)> = self.unwithdrawn_validator_rewards@;
        let mut kept: Vec<(u64, AccountId, Balance)> = Vec::new();
        let mut total: u128 = 0;
        let n = self.unwithdrawn_validator_rewards.len();
        let mut i: usize = 0;
        while i < n
            invariant
                i <= n,
                n == s0.len(),
                *self == *old(self),
                old(self).well_formed(),
                end_era == old(self)@.eras_end_index,
                start_era == reward_window_start(
                    end_era,
                    old(self)@.protocol_settings.maximum_era_count_of_unwithdrawn_reward,
                ),
                self.unwithdrawn_validator_rewards@ == s0,
                total as int == sum_validator_rewards(
                    s0.subrange(0, i as int),
                    validator_id,
                    start_era,
                    end_era,
                ),
                kept@ == remaining_validator_rewards(
                    s0.subrange(0, i as int),
                    validator_id,
                    start_era,
                    end_era,
                ),
            decreases n - i,
        {
            let e = self.unwithdrawn_validator_rewards[i];
            proof {
                let sub1 = s0.subrange(0, i as int + 1);
                assert(sub1.drop_last() =~= s0.subrange(0, i as int));
                assert(sub1.last() == e);
            }
            if e.1 == validator_id && start_era <= e.0 && e.0 < end_era {
                if e.2 > u128::MAX - total {
                    proof {
                        lemma_validator_rewards_prefix(
                            s0,
                            validator_id,
                            start_era,
                            end_era,
                            i as int + 1,
                        );
                    }
                    return Err(AnchorError::ArithmeticOverflow);
                }
                total = total + e.2;
            } else {
                kept.push(e);
            }
            i += 1;
        }
        proof {
            assert(s0.subrange(0, s0.len() as int) =~= s0);
        }
        self.unwithdrawn_validator_rewards = kept;
        proof {
            assert(self@ =~= (AppchainAnchorView {
                validator_rewards: remaining_validator_rewards(
                    pre.validator_rewards,
                    validator_id,
                    start_era,
                    end_era,
                ),
                ..pre
            }));
        }
        Ok(total)
    }

    /// Withdraws every unwithdrawn reward of the delegation of
    /// `delegator_id` to `validator_id` within the retention window, as
    /// `withdraw_validator_rewards` does for a validator.
    pub fn withdraw_delegator_rewards(
        &mut self,
        delegator_id: AccountId,
        validator_id: AccountId,
    ) -> (r: Result<Balance, AnchorError>)
        requires
            old(self).well_formed(),
        ensures
            final(self).well_formed(),
            ({
                let end_era = old(self)@.eras_end_index;
                let start_era = reward_window_start(
                    end_era,
                    old(self)@.protocol_settings.maximum_era_count_of_unwithdrawn_reward,
                );
                let total = sum_delegator_rewards(
                    old(self)@.delegator_rewards,
                    delegator_id,
                    validator_id,
                    start_era,
                    end_era,
                );
                if total > u128::MAX {
                    r == Err::<Balance, AnchorError>(AnchorError::ArithmeticOverflow) && final(self)@ == old(self)@
                } else {
                    &&& r == Ok::<Balance, AnchorError>(total as Balance)
                    &&& final(self)@ == (AppchainAnchorView {
                        delegator_rewards: remaining_delegator_rewards(
                            old(self)@.delegator_rewards,
                            delegator_id,
                            validator_id,
                            start_era,
                            end_era,
                        ),
                        ..old(self)@
                    })
                }
            }),
    {
        let ghost pre = self@;
        let end_era = self.validator_set_histories.index_range().end_index;
        let window = self.protocol_settings.maximum_era_count_of_unwithdrawn_reward;
        let start_era: u64 = if end_era >= window {
            end_era - window
        } else {
            0
        };
        let ghost s0: Seq<(u64, AccountId, AccountId, Balance)> =
            self.unwithdrawn_delegator_rewards@;
        let mut kept: Vec<(u64, AccountId, AccountId, Balance)> = Vec::new();
        let mut total: u128 = 0;
        let n = self.unwithdrawn_delegator_rewards.len();
        let mut i: usize = 0;
        while i < n
            invariant
                i <= n,
                n == s0.len(),
                *self == *old(self),
                old(self).well_formed(),
                end_era == old(self)@.eras_end_index,
                start_era == reward_window_start(
                    end_era,
                    old(self)@.protocol_settings.maximum_era_count_of_unwithdrawn_reward,
                ),
                self.unwithdrawn_delegator_rewards@ == s0,
                total as int == sum_delegator_rewards(
                    s0.subrange(0, i as int),
                    delegator_id,
                    validator_id,
                    start_era,
                    end_era,
                ),
                kept@ == remaining_delegator_rewards(
                    s0.subrange(0, i as int),
                    delegator_id,
                    validator_id,
                    start_era,
                    end_era,
                ),
            decreases n - i,
        {
            let e = self.unwithdrawn_delegator_rewards[i];
            proof {
                let sub1 = s0.subrange(0, i as int + 1);
                assert(sub1.drop_last() =~= s0.subrange(0, i as int));
                assert(sub1.last() == e);
            }
            if e.1 == delegator_id && e.2 == validator_id && start_era <= e.0 && e.0 < end_era {
                if e.3 > u128::MAX - total {
                    proof {
                        lemma_delegator_rewards_prefix(
                            s0,
                            delegator_id,
                            validator_id,
                            start_era,
                            end_era,
                            i as int + 1,
                        );
                    }
                    return Err(AnchorError::ArithmeticOverflow);
                }
                total = total + e.3;
            } else {
                kept.push(e);
            }
            i += 1;
        }
        proof {
            assert(s0.subrange(0, s0.len() as int) =~= s0);
        }
        self.unwithdrawn_delegator_rewards = kept;
        proof {
            assert(self@ =~= (AppchainAnchorView {
                delegator_rewards: remaining_delegator_rewards(
                    pre.delegator_rewards,
                    delegator_id,
                    validator_id,
                    start_era,
                    end_era,
                ),
                ..pre
            }));
        }
        Ok(total)
    }
}


/// The amount and unlock period (in days) a ledger fact pledges for
/// withdrawal, or `None` for a fact no withdrawal can reference.
pub open spec fn unbonded_amount_and_period(
    settings: ProtocolSettings,
    fact: StakingFact,
) -> Option<(Balance, u64)> {
    match fact {
        StakingFact::StakeDecreased { validator_id: _, amount } => Some(
            (amount, settings.unlock_period_of_validator_deposit),
        ),
        StakingFact::ValidatorUnbonded { validator_id: _, amount } => Some(
            (amount, settings.unlock_period_of_validator_deposit),
        ),
        StakingFact::DelegationDecreased { delegator_id: _, validator_id: _, amount } => Some(
            (amount, settings.unlock_period_of_delegator_deposit),
        ),
        StakingFact::DelegatorUnbonded { delegator_id: _, validator_id: _, amount } => Some(
            (amount, settings.unlock_period_of_delegator_deposit),
        ),
        _ => None,
    }
}

/// Whether the unlock period of a reference, measured from the start of
/// its era, has elapsed at `now`.
pub open spec fn reference_unlocked(start_timestamp: Timestamp, days: u64, now: Timestamp) -> bool {
    now >= start_timestamp + days * (crate::types::SECONDS_OF_A_DAY as int) * (
    crate::types::NANO_SECONDS_MULTIPLE as int)
}

/// What withdrawing the unbonded stake of `account` at `now` yields: the
/// summed withdrawable amount and the references that stay — other
/// accounts' entries, and entries of `account` still locked. `None` when a
/// reference of `account` points at an unsealed era or a missing ledger
/// entry; a reference to a fact that pledges nothing is dropped without
/// amount.
pub open spec fn spec_withdraw_stake(
    refs: Seq<(AccountId, UnbondedStakeReference)>,
    account: AccountId,
    eras: Seq<crate::era::ValidatorSetOfEra>,
    ledger: Seq<StakingHistory>,
    settings: ProtocolSettings,
    now: Timestamp,
) -> Option<(int, Seq<(AccountId, UnbondedStakeReference)>)>
    decreases refs.len(),
{
    if refs.len() == 0 {
        Some((0, refs))
    } else {
        match spec_withdraw_stake(refs.drop_last(), account, eras, ledger, settings, now) {
            None => None,
            Some((total, kept)) => {
                let e = refs.last();
                if e.0 != account {
                    Some((total, kept.push(e)))
                } else if e.1.era_number >= eras.len() || e.1.staking_history_index
                    >= ledger.len() {
                    None
                } else {
                    match unbonded_amount_and_period(
                        settings,
                        ledger[e.1.staking_history_index as int].staking_fact,
                    ) {
                        None => Some((total, kept)),
                        Some((amount, days)) => {
                            if reference_unlocked(
                                eras[e.1.era_number as int].start_timestamp,
                                days,
                                now,
                            ) {
                                Some((total + amount, kept))
                            } else {
                                Some((total, kept.push(e)))
                            }
                        },
                    }
                }
            },
        }
    }
}

/// A reference of `account` that cannot be resolved poisons the whole
/// withdrawal.
proof fn lemma_withdraw_stake_none(
    refs: Seq<(AccountId, UnbondedStakeReference)>,
    account: AccountId,
    eras: Seq<crate::era::ValidatorSetOfEra>,
    ledger: Seq<StakingHistory>,
    settings: ProtocolSettings,
    now: Timestamp,
    i: int,
)
    requires
        0 <= i < refs.len(),
        refs[i].0 == account,
        refs[i].1.era_number >= eras.len() || refs[i].1.staking_history_index >= ledger.len(),
    ensures
        spec_withdraw_stake(refs, account, eras, ledger, settings, now) is None,
    decreases refs.len(),
{
    if i < refs.len() - 1 {
        lemma_withdraw_stake_none(refs.drop_last(), account, eras, ledger, settings, now, i);
    }
}

/// When every reference of the account resolves, the withdrawal is
/// defined.
proof fn lemma_withdraw_stake_some(
    refs: Seq<(AccountId, UnbondedStakeReference)>,
    account: AccountId,
    eras: Seq<crate::era::ValidatorSetOfEra>,
    ledger: Seq<StakingHistory>,
    settings: ProtocolSettings,
    now: Timestamp,
)
    requires
        forall|k: int|
            0 <= k < refs.len() && (#[trigger] refs[k]).0 == account ==> refs[k].1.era_number
                < eras.len() && refs[k].1.staking_history_index < ledger.len(),
    ensures
        spec_withdraw_stake(refs, account, eras, ledger, settings, now) is Some,
    decreases refs.len(),
{
    if refs.len() > 0 {
        let t = refs.drop_last();
        assert forall|k: int|
            0 <= k < t.len() && (#[trigger] t[k]).0 == account implies t[k].1.era_number
            < eras.len() && t[k].1.staking_history_index < ledger.len() by {
            assert(t[k] == refs[k]);
        }
        lemma_withdraw_stake_some(t, account, eras, ledger, settings, now);
    }
}

/// Withdrawable sums over prefixes never exceed the sum over all
/// references.
proof fn lemma_withdraw_stake_prefix(
    refs: Seq<(AccountId, UnbondedStakeReference)>,
    account: AccountId,
    eras: Seq<crate::era::ValidatorSetOfEra>,
    ledger: Seq<StakingHistory>,
    settings: ProtocolSettings,
    now: Timestamp,
    i: int,
)
    requires
        0 <= i <= refs.len(),
        spec_withdraw_stake(refs, account, eras, ledger, settings, now) is Some,
    ensures
        spec_withdraw_stake(refs.subrange(0, i), account, eras, ledger, settings, now) is Some,
        0 <= spec_withdraw_stake(refs.subrange(0, i), account, eras, ledger, settings, now).unwrap().0,
        spec_withdraw_stake(refs.subrange(0, i), account, eras, ledger, settings, now).unwrap().0
            <= spec_withdraw_stake(refs, account, eras, ledger, settings, now).unwrap().0,
    decreases refs.len() - i,
{
    if i == refs.len() {
        assert(refs.subrange(0, i) =~= refs);
        lemma_withdraw_stake_nonneg(refs, account, eras, ledger, settings, now);
    } else {
        lemma_withdraw_stake_prefix(refs, account, eras, ledger, settings, now, i + 1);
        let s1 = refs.subrange(0, i + 1);
        assert(s1.drop_last() =~= refs.subrange(0, i));
        assert(s1.last() == refs[i]);
        lemma_withdraw_stake_nonneg(refs.subrange(0, i), account, eras, ledger, settings, now);
    }
}

/// Withdrawable sums are nonnegative.
proof fn lemma_withdraw_stake_nonneg(
    refs: Seq<(AccountId, UnbondedStakeReference)>,
    account: AccountId,
    eras: Seq<crate::era::ValidatorSetOfEra>,
    ledger: Seq<StakingHistory>,
    settings: ProtocolSettings,
    now: Timestamp,
)
    requires
        spec_withdraw_stake(refs, account, eras, ledger, settings, now) is Some,
    ensures
        0 <= spec_withdraw_stake(refs, account, eras, ledger, settings, now).unwrap().0,
    decreases refs.len(),
{
    if refs.len() > 0 {
        if spec_withdraw_stake(refs.drop_last(), account, eras, ledger, settings, now) is Some {
            lemma_withdraw_stake_nonneg(refs.drop_last(), account, eras, ledger, settings, now);
        }
    }
}

impl AppchainAnchor {
    /// Withdraws every unbonded stake of `account_id` whose unlock period,
    /// measured from the start of the era it references, has elapsed at
    /// `now`: eligible references are dropped and their amounts summed,
    /// the rest stay, exactly as [`spec_withdraw_stake`] says. Returns the
    /// withdrawable amount; the caller performs the transfer.
    pub fn withdraw_stake(&mut self, account_id: AccountId, now: Timestamp) -> (r: Result<
        Balance,
        AnchorError,
    >)
        requires
            old(self).well_formed(),
        ensures
            final(self).well_formed(),
            (match spec_withdraw_stake(
                old(self)@.unbonded_stakes,
                account_id,
                old(self)@.eras,
                old(self)@.ledger,
                old(self)@.protocol_settings,
                now,
            ) {
                None => r == Err::<Balance, AnchorError>(AnchorError::ReferenceNotFound) && final(self)@ == old(self)@,
                Some((total, kept)) => {
                    if total > u128::MAX {
                        r == Err::<Balance, AnchorError>(AnchorError::ArithmeticOverflow) && final(self)@ == old(self)@
                    } else {
                        &&& r == Ok::<Balance, AnchorError>(total as Balance)
                        &&& final(self)@ == (AppchainAnchorView {
                            unbonded_stakes: kept,
                            ..old(self)@
                        })
                    }
                },
            }),
    {
        let ghost pre = self@;
        let ghost s0: Seq<(AccountId, UnbondedStakeReference)> = self.unbonded_stakes@;
        let eras_len = self.validator_set_histories.index_range();
        let n = self.unbonded_stakes.len();
        // First pass: every reference of the account must resolve.
        let mut i: usize = 0;
        while i < n
            invariant
                i <= n,
                n == s0.len(),
                *self == *old(self),
                old(self).well_formed(),
                self.unbonded_stakes@ == s0,
                forall|j: int|
                    0 <= j < i && (#[trigger] s0[j]).0 == account_id ==> s0[j].1.era_number < old(self)@.eras.len() && s0[j].1.staking_history_index < old(self)@.ledger.len(),
            decreases n - i,
        {
            let e = self.unbonded_stakes[i];
            if e.0 == account_id {
                if !self.validator_set_histories.contains(&e.1.era_number) {
                    proof {
                        lemma_withdraw_stake_none(
                            s0,
                            account_id,
                            old(self)@.eras,
                            old(self)@.ledger,
                            old(self)@.protocol_settings,
                            now,
                            i as int,
                        );
                    }
                    return Err(AnchorError::ReferenceNotFound);
                }
                let in_ledger = self.staking_histories.get(&e.1.staking_history_index);
                if in_ledger.is_none() {
                    proof {
                        lemma_withdraw_stake_none(
                            s0,
                            account_id,
                            old(self)@.eras,
                            old(self)@.ledger,
                            old(self)@.protocol_settings,
                            now,
                            i as int,
                        );
                    }
                    return Err(AnchorError::ReferenceNotFound);
                }
            }
            i += 1;
        }
        // Second pass: sum what is unlocked, keep the rest.
        let mut kept: Vec<(AccountId, UnbondedStakeReference)> = Vec::new();
        let mut total: u128 = 0;
        let mut j: usize = 0;
        while j < n
            invariant
                j <= n,
                n == s0.len(),
                *self == *old(self),
                old(self).well_formed(),
                self.unbonded_stakes@ == s0,
                forall|k: int|
                    0 <= k < s0.len() && (#[trigger] s0[k]).0 == account_id ==> s0[k].1.era_number
                        < old(self)@.eras.len() && s0[k].1.staking_history_index < old(self)@.ledger.len(),
                spec_withdraw_stake(
                    s0.subrange(0, j as int),
                    account_id,
                    old(self)@.eras,
                    old(self)@.ledger,
                    old(self)@.protocol_settings,
                    now,
                ) == Some((total as int, kept@)),
            decreases n - j,
        {
            let e = self.unbonded_stakes[j];
            proof {
                let sub1 = s0.subrange(0, j as int + 1);
                assert(sub1.drop_last() =~= s0.subrange(0, j as int));
                assert(sub1.last() == e);
            }
            if e.0 != account_id {
                kept.push(e);
            } else {
                let era = self.validator_set_histories.get(&e.1.era_number);
                let entry = self.staking_histories.get(&e.1.staking_history_index);
                match (era, entry) {
                    (Some(era_set), Some(record)) => {
                        let start_timestamp = era_set.start_timestamp;
                        let looked_up = match record.staking_fact {
                            StakingFact::StakeDecreased { validator_id: _, amount } => Some(
                                (amount, self.protocol_settings.unlock_period_of_validator_deposit),
                            ),
                            StakingFact::ValidatorUnbonded { validator_id: _, amount } => Some(
                                (amount, self.protocol_settings.unlock_period_of_validator_deposit),
                            ),
                            StakingFact::DelegationDecreased {
                                delegator_id: _,
                                validator_id: _,
                                amount,
                            } => Some(
                                (amount, self.protocol_settings.unlock_period_of_delegator_deposit),
                            ),
                            StakingFact::DelegatorUnbonded {
                                delegator_id: _,
                                validator_id: _,
                                amount,
                            } => Some(
                                (amount, self.protocol_settings.unlock_period_of_delegator_deposit),
                            ),
                            _ => None,
                        };
                        match looked_up {
                            None => {},
                            Some((amount, days)) => {
                                proof {
                                    assert((days as int) * 86400 * 1_000_000_000 <= (
                                    u64::MAX as int) * 86400 * 1_000_000_000)
                                        by (nonlinear_arith)
                                        requires
                                            days <= u64::MAX,
                                    ;
                                }
                                let unlock_at: u128 = (start_timestamp as u128) + (days as u128)
                                    * 86400 * 1_000_000_000;
                                if (now as u128) >= unlock_at {
                                    if amount > u128::MAX - total {
                                        proof {
                                            lemma_withdraw_stake_some(
                                                s0,
                                                account_id,
                                                old(self)@.eras,
                                                old(self)@.ledger,
                                                old(self)@.protocol_settings,
                                                now,
                                            );
                                            lemma_withdraw_stake_prefix(
                                                s0,
                                                account_id,
                                                old(self)@.eras,
                                                old(self)@.ledger,
                                                old(self)@.protocol_settings,
                                                now,
                                                j as int + 1,
                                            );
                                        }
                                        return Err(AnchorError::ArithmeticOverflow);
                                    }
                                    total = total + amount;
                                } else {
                                    kept.push(e);
                                }
                            },
                        }
                    },
                    _ => {
                        proof {
                            assert(false);
                        }
                    },
                }
            }
            j += 1;
        }
        proof {
            assert(s0.subrange(0, s0.len() as int) =~= s0);
        }
        self.unbonded_stakes = kept;
        proof {
            assert(self@ =~= (AppchainAnchorView {
                unbonded_stakes: spec_withdraw_stake(
                    pre.unbonded_stakes,
                    account_id,
                    pre.eras,
                    pre.ledger,
                    pre.protocol_settings,
                    now,
                ).unwrap().1,
                ..pre
            }));
        }
        Ok(total)
    }
}

} // verus!
