//! The era lifecycle: one sealed validator-set snapshot per era, advanced
//! through an ordered, resumable sequence of processing phases from seeding
//! to reward distribution. Every phase does one bounded slice of work per
//! call and resumes from its stored cursor, so repeating a call never
//! duplicates completed work.

use vstd::prelude::*;

use crate::staking::StakingHistories;
use crate::types::{AccountId, AnchorError, Balance, BlockHeight, IndexRange, StakingHistory,
    Timestamp};
use crate::validator_set::{spec_apply_staking_fact, validator_index, AppchainValidator, Delegator,
    Validator, ValidatorSet, ValidatorSetView, find_validator};

verus! {

/// The phase a sealed era's processing is in, with the cursors that make
/// each phase resumable.
#[derive(Clone, Copy, PartialEq, Eq, Structural, Debug)]
pub enum ValidatorSetProcessingStatus {
    /// Seeding the snapshot by copying forward the prior era's validators,
    /// then their delegators.
    CopyingFromLastEra { copying_validator_index: u64, copying_delegator_index: u64 },
    /// Folding ledger entries into the snapshot, up to the era's marker.
    ApplyingStakingHistory { applying_index: u64 },
    /// Materializing the flattened validator list for external reads.
    MakingValidatorList { making_index: u64 },
    /// Awaiting the external era-payout signal.
    ReadyForDistributingReward,
    /// Accruing the payout, one validator (with its delegators) per call.
    DistributingReward { distributing_validator_index: u64, distributing_delegator_index: u64 },
    /// Terminal: the era's snapshot is immutable history.
    Completed,
}

impl ValidatorSetProcessingStatus {
    /// True exactly in the phase that awaits the era-payout signal.
    pub fn is_ready_for_distributing_reward(&self) -> (r: bool)
        ensures
            r == (*self is ReadyForDistributingReward),
    {
        match self {
            ValidatorSetProcessingStatus::CopyingFromLastEra {
                copying_validator_index: _,
                copying_delegator_index: _,
            } => false,
            ValidatorSetProcessingStatus::ApplyingStakingHistory { applying_index: _ } => false,
            ValidatorSetProcessingStatus::MakingValidatorList { making_index: _ } => false,
            ValidatorSetProcessingStatus::ReadyForDistributingReward => true,
            ValidatorSetProcessingStatus::DistributingReward {
                distributing_validator_index: _,
                distributing_delegator_index: _,
            } => false,
            ValidatorSetProcessingStatus::Completed => false,
        }
    }
}

/// A queryable snapshot of the era's validator set and its metadata.
#[derive(Debug)]
pub struct ValidatorSetInfo {
    pub era_number: u64,
    pub total_stake: Balance,
    pub validator_list: Vec<AppchainValidator>,
    pub start_block_height: BlockHeight,
    pub start_timestamp: Timestamp,
    pub staking_history_index: u64,
    pub unprofitable_validator_ids: Vec<AccountId>,
    pub valid_total_stake: Balance,
    pub processing_status: ValidatorSetProcessingStatus,
}

/// A validator set sealed for one era, with the era's metadata and the
/// phase machine that carries it to completion.
pub struct ValidatorSetOfEra {
    /// The validator set of this era.
    pub validator_set: ValidatorSet,
    /// The flattened validator list for queries, built by the
    /// `MakingValidatorList` phase.
    pub validator_list: Vec<AppchainValidator>,
    /// The block height when the era started.
    pub start_block_height: BlockHeight,
    /// The timestamp when the era started.
    pub start_timestamp: Timestamp,
    /// The ledger index of the last staking fact belonging to this era.
    pub staking_history_index: u64,
    /// The validators excluded from this era's reward.
    pub unprofitable_validator_id_set: Vec<AccountId>,
    /// Total stake minus the unprofitable validators' stake.
    pub valid_total_stake: Balance,
    /// Where this era's processing stands.
    pub processing_status: ValidatorSetProcessingStatus,
}

/// Copies a vector of plain values.
pub(crate) fn copy_vec<T: Copy>(v: &Vec<T>) -> (r: Vec<T>)
    ensures
        r@ == v@,
{
    let mut r: Vec<T> = Vec::new();
    let mut i: usize = 0;
    while i < v.len()
        invariant
            i <= v@.len(),
            r@ == v@.subrange(0, i as int),
        decreases v@.len() - i,
    {
        r.push(v[i]);
        proof {
            assert(r@ =~= v@.subrange(0, i as int + 1));
        }
        i += 1;
    }
    proof {
        assert(v@.subrange(0, v@.len() as int) =~= v@);
    }
    r
}

/// Whether `v` holds `x`.
pub(crate) fn vec_contains_u64(v: &Vec<u64>, x: u64) -> (r: bool)
    ensures
        r == v@.contains(x),
{
    let mut i: usize = 0;
    while i < v.len()
        invariant
            i <= v@.len(),
            forall|j: int| 0 <= j < i ==> v@[j] != x,
        decreases v@.len() - i,
    {
        if v[i] == x {
            return true;
        }
        i += 1;
    }
    false
}

/// The summed total stake of the validators named by `ids`, or `None` when
/// one of them is not in the set.
pub open spec fn sum_stakes_of(ids: Seq<AccountId>, validators: Seq<Validator>) -> Option<int>
    decreases ids.len(),
{
    if ids.len() == 0 {
        Some(0)
    } else {
        match sum_stakes_of(ids.drop_last(), validators) {
            None => None,
            Some(t) => {
                let k = validator_index(validators, ids.last());
                if k < 0 {
                    None
                } else {
                    Some(t + validators[k].total_stake)
                }
            },
        }
    }
}

/// Partial sums of stakes never shrink.
proof fn lemma_sum_stakes_prefix(ids: Seq<AccountId>, validators: Seq<Validator>, i: int)
    requires
        0 <= i <= ids.len(),
        sum_stakes_of(ids, validators) is Some,
    ensures
        sum_stakes_of(ids.subrange(0, i), validators) is Some,
        sum_stakes_of(ids.subrange(0, i), validators).unwrap() <= sum_stakes_of(
            ids,
            validators,
        ).unwrap(),
    decreases ids.len() - i,
{
    if i == ids.len() {
        assert(ids.subrange(0, i) =~= ids);
    } else {
        lemma_sum_stakes_prefix(ids, validators, i + 1);
        let s1 = ids.subrange(0, i + 1);
        assert(s1.drop_last() =~= ids.subrange(0, i));
        assert(s1.last() == ids[i]);
        let k = validator_index(validators, ids[i]);
        crate::validator_set::lemma_validator_index(validators, ids[i]);
    }
}


/// The unprofitable-id set after merging `arg` into `s0`, in order, each
/// id appended once unless already present.
pub open spec fn merged_unprofitable_ids(s0: Seq<AccountId>, arg: Seq<AccountId>) -> Seq<AccountId>
    decreases arg.len(),
{
    if arg.len() == 0 {
        s0
    } else {
        let rest = merged_unprofitable_ids(s0, arg.drop_last());
        if rest.contains(arg.last()) {
            rest
        } else {
            rest.push(arg.last())
        }
    }
}

impl ValidatorSetOfEra {
    /// A freshly sealed era: an empty snapshot that starts its life in the
    /// `CopyingFromLastEra` phase.
    pub fn new(
        era_number: u64,
        staking_history_index: u64,
        block_height: BlockHeight,
        timestamp: Timestamp,
    ) -> (r: Self)
        ensures
            r.validator_set@ == (ValidatorSetView {
                era_number,
                validators: Seq::<Validator>::empty(),
                delegators: Seq::<Delegator>::empty(),
                v2d: Seq::<(AccountId, AccountId)>::empty(),
                d2v: Seq::<(AccountId, AccountId)>::empty(),
                total_stake: 0u128,
            }),
            r.validator_list@ == Seq::<AppchainValidator>::empty(),
            r.start_block_height == block_height,
            r.start_timestamp == timestamp,
            r.staking_history_index == staking_history_index,
            r.unprofitable_validator_id_set@ == Seq::<AccountId>::empty(),
            r.valid_total_stake == 0,
            r.processing_status == (ValidatorSetProcessingStatus::CopyingFromLastEra {
                copying_validator_index: 0,
                copying_delegator_index: 0,
            }),
    {
        ValidatorSetOfEra {
            validator_set: ValidatorSet::new(era_number),
            validator_list: Vec::new(),
            start_block_height: block_height,
            start_timestamp: timestamp,
            staking_history_index,
            unprofitable_validator_id_set: Vec::new(),
            valid_total_stake: 0,
            processing_status: ValidatorSetProcessingStatus::CopyingFromLastEra {
                copying_validator_index: 0,
                copying_delegator_index: 0,
            },
        }
    }

    /// Marks the given validators as excluded from this era's reward,
    /// keeping the stored set free of duplicates: each given id is
    /// appended once unless it is already present.
    pub fn set_unprofitable_validator_ids(&mut self, unprofitable_validator_ids: Vec<AccountId>)
        ensures
            final(self).unprofitable_validator_id_set@ == merged_unprofitable_ids(
                old(self).unprofitable_validator_id_set@,
                unprofitable_validator_ids@,
            ),
            final(self).validator_set == old(self).validator_set,
            final(self).validator_list == old(self).validator_list,
            final(self).start_block_height == old(self).start_block_height,
            final(self).start_timestamp == old(self).start_timestamp,
            final(self).staking_history_index == old(self).staking_history_index,
            final(self).valid_total_stake == old(self).valid_total_stake,
            final(self).processing_status == old(self).processing_status,
    {
        let ghost s0: Seq<AccountId> = self.unprofitable_validator_id_set@;
        let ghost arg: Seq<AccountId> = unprofitable_validator_ids@;
        let mut i: usize = 0;
        while i < unprofitable_validator_ids.len()
            invariant
                i <= arg.len(),
                unprofitable_validator_ids@ == arg,
                self.unprofitable_validator_id_set@ == merged_unprofitable_ids(
                    s0,
                    arg.subrange(0, i as int),
                ),
                self.validator_set == old(self).validator_set,
                self.validator_list == old(self).validator_list,
                self.start_block_height == old(self).start_block_height,
                self.start_timestamp == old(self).start_timestamp,
                self.staking_history_index == old(self).staking_history_index,
                self.valid_total_stake == old(self).valid_total_stake,
                self.processing_status == old(self).processing_status,
            decreases arg.len() - i,
        {
            let id = unprofitable_validator_ids[i];
            proof {
                let sub1 = arg.subrange(0, i as int + 1);
                assert(sub1.drop_last() =~= arg.subrange(0, i as int));
                assert(sub1.last() == id);
            }
            if !vec_contains_u64(&self.unprofitable_validator_id_set, id) {
                self.unprofitable_validator_id_set.push(id);
            }
            i += 1;
        }
        proof {
            assert(arg.subrange(0, arg.len() as int) =~= arg);
        }
    }

    /// Recomputes `valid_total_stake`: the set's total stake minus the
    /// summed stake of the unprofitable validators. Rejects, changing
    /// nothing, when an unprofitable id is not in the set, when the sum
    /// does not fit, or when it exceeds the total.
    pub fn calculate_valid_total_stake(&mut self) -> (r: Result<(), AnchorError>)
        ensures
            (match sum_stakes_of(
                old(self).unprofitable_validator_id_set@,
                old(self).validator_set@.validators,
            ) {
                None => r == Err::<(), AnchorError>(AnchorError::ValidatorNotFound) && *final(self) == *old(self),
                Some(t) => {
                    if t > u128::MAX {
                        r == Err::<(), AnchorError>(AnchorError::ArithmeticOverflow) && *final(self) == *old(self)
                    } else if t > old(self).validator_set@.total_stake {
                        r == Err::<(), AnchorError>(AnchorError::AmountExceedsBalance) && *final(self) == *old(self)
                    } else {
                        &&& r is Ok
                        &&& final(self).valid_total_stake == old(self).validator_set@.total_stake - t
                        &&& final(self).validator_set == old(self).validator_set
                        &&& final(self).validator_list == old(self).validator_list
                        &&& final(self).start_block_height == old(self).start_block_height
                        &&& final(self).start_timestamp == old(self).start_timestamp
                        &&& final(self).staking_history_index == old(self).staking_history_index
                        &&& final(self).unprofitable_validator_id_set == old(self).unprofitable_validator_id_set
                        &&& final(self).processing_status == old(self).processing_status
                    }
                },
            }),
    {
        let ghost ids: Seq<AccountId> = self.unprofitable_validator_id_set@;
        let ghost vals: Seq<Validator> = self.validator_set@.validators;
        proof {
            assert(vals == self.validator_set.validators@);
        }
        let n = self.unprofitable_validator_id_set.len();
        // First pass: every unprofitable id must name a validator of the set.
        let mut i: usize = 0;
        while i < n
            invariant
                i <= n,
                n == ids.len(),
                self.unprofitable_validator_id_set@ == ids,
                self.validator_set.validators@ == vals,
                sum_stakes_of(ids.subrange(0, i as int), vals) is Some,
            decreases n - i,
        {
            let id = self.unprofitable_validator_id_set[i];
            let found = find_validator(&self.validator_set.validators, id);
            proof {
                let sub1 = ids.subrange(0, i as int + 1);
                assert(sub1.drop_last() =~= ids.subrange(0, i as int));
                assert(sub1.last() == id);
            }
            if found.is_none() {
                proof {
                    lemma_sum_stakes_none(ids, vals, i as int);
                }
                return Err(AnchorError::ValidatorNotFound);
            }
            i += 1;
        }
        proof {
            assert(ids.subrange(0, ids.len() as int) =~= ids);
        }
        // Second pass: sum the stakes, watching for overflow.
        let mut total: u128 = 0;
        let mut j: usize = 0;
        while j < n
            invariant
                j <= n,
                n == ids.len(),
                self.unprofitable_validator_id_set@ == ids,
                self.validator_set.validators@ == vals,
                sum_stakes_of(ids, vals) is Some,
                sum_stakes_of(ids.subrange(0, j as int), vals) == Some(total as int),
            decreases n - j,
        {
            let id = self.unprofitable_validator_id_set[j];
            let found = find_validator(&self.validator_set.validators, id);
            proof {
                let sub1 = ids.subrange(0, j as int + 1);
                assert(sub1.drop_last() =~= ids.subrange(0, j as int));
                assert(sub1.last() == id);
                lemma_sum_stakes_prefix(ids, vals, j as int + 1);
            }
            match found {
                None => {
                    proof {
                        crate::validator_set::lemma_validator_index(vals, id);
                        assert(false);
                    }
                },
                Some(k) => {
                    let stake = self.validator_set.validators[k].total_stake;
                    if stake > u128::MAX - total {
                        proof {
                            lemma_sum_stakes_prefix(ids, vals, ids.len() as int);
                            assert(ids.subrange(0, ids.len() as int) =~= ids);
                        }
                        return Err(AnchorError::ArithmeticOverflow);
                    }
                    total = total + stake;
                },
            }
            j += 1;
        }
        proof {
            assert(ids.subrange(0, ids.len() as int) =~= ids);
        }
        if total > self.validator_set.total_stake {
            return Err(AnchorError::AmountExceedsBalance);
        }
        self.valid_total_stake = self.validator_set.total_stake - total;
        Ok(())
    }

    /// The queryable snapshot of this era.
    pub fn to_validator_set_info(&self) -> (r: ValidatorSetInfo)
        ensures
            r.era_number == self.validator_set@.era_number,
            r.total_stake == self.validator_set@.total_stake,
            r.validator_list@ == self.validator_list@,
            r.start_block_height == self.start_block_height,
            r.start_timestamp == self.start_timestamp,
            r.staking_history_index == self.staking_history_index,
            r.unprofitable_validator_ids@ == self.unprofitable_validator_id_set@,
            r.valid_total_stake == self.valid_total_stake,
            r.processing_status == self.processing_status,
    {
        ValidatorSetInfo {
            era_number: self.validator_set.era_number,
            total_stake: self.validator_set.total_stake,
            validator_list: copy_vec(&self.validator_list),
            start_block_height: self.start_block_height,
            start_timestamp: self.start_timestamp,
            staking_history_index: self.staking_history_index,
            unprofitable_validator_ids: copy_vec(&self.unprofitable_validator_id_set),
            valid_total_stake: self.valid_total_stake,
            processing_status: self.processing_status,
        }
    }

    /// Folds one recorded staking fact into this era's snapshot.
    pub fn apply_staking_history(&mut self, staking_history: &StakingHistory) -> (r: Result<
        (),
        AnchorError,
    >)
        ensures
            (match spec_apply_staking_fact(
                old(self).validator_set@,
                staking_history.staking_fact,
                staking_history.block_height,
                staking_history.timestamp,
            ) {
                Ok(m) => r is Ok && final(self).validator_set@ == m,
                Err(e) => r == Err::<(), AnchorError>(e) && final(self).validator_set@ == old(self).validator_set@,
            }),
            final(self).validator_list == old(self).validator_list,
            final(self).start_block_height == old(self).start_block_height,
            final(self).start_timestamp == old(self).start_timestamp,
            final(self).staking_history_index == old(self).staking_history_index,
            final(self).unprofitable_validator_id_set == old(self).unprofitable_validator_id_set,
            final(self).valid_total_stake == old(self).valid_total_stake,
            final(self).processing_status == old(self).processing_status,
    {
        self.validator_set.apply_staking_history(staking_history)
    }
}

/// A sum over a prefix that hits a missing validator is `None` for the
/// whole sequence too.
proof fn lemma_sum_stakes_none(ids: Seq<AccountId>, validators: Seq<Validator>, i: int)
    requires
        0 <= i < ids.len(),
        validator_index(validators, ids[i]) < 0,
    ensures
        sum_stakes_of(ids, validators) is None,
    decreases ids.len(),
{
    if ids.len() > 0 {
        if i == ids.len() - 1 {
        } else {
            lemma_sum_stakes_none(ids.drop_last(), validators, i);
        }
    }
}


/// The whole-era reward share of a validator holding `v_stake` of the
/// `valid_total` eligible stake.
pub open spec fn spec_total_reward_of(payout: Balance, v_stake: Balance, valid_total: Balance) -> int {
    payout * v_stake / (valid_total as int)
}

/// A delegator's gross share of a validator's reward, proportional to its
/// deposit within the validator's total stake.
pub open spec fn spec_delegator_share(total_reward: int, d_deposit: Balance, v_stake: Balance) -> int {
    total_reward * d_deposit / (v_stake as int)
}

/// The delegation fee retained by the validator from a delegator's share.
pub open spec fn spec_delegator_fee(share: int, fee_percent: u16) -> int {
    share * fee_percent / 100
}

/// The reward-ledger entries of the delegators of `v`, in table order:
/// each delegation to `v` earns its share minus the delegation fee.
pub open spec fn delegator_reward_entries(
    dels: Seq<Delegator>,
    era: u64,
    v: Validator,
    total_reward: int,
    fee_percent: u16,
) -> Seq<(u64, AccountId, AccountId, Balance)>
    decreases dels.len(),
{
    if dels.len() == 0 {
        Seq::empty()
    } else {
        let rest = delegator_reward_entries(dels.drop_last(), era, v, total_reward, fee_percent);
        let d = dels.last();
        if d.validator_id == v.validator_id {
            let share = spec_delegator_share(total_reward, d.deposit_amount, v.total_stake);
            rest.push((era, d.delegator_id, v.validator_id, (share - spec_delegator_fee(share, fee_percent)) as Balance))
        } else {
            rest
        }
    }
}

/// The summed delegation fees of the delegators of `v`.
pub open spec fn delegator_fee_total(
    dels: Seq<Delegator>,
    v: Validator,
    total_reward: int,
    fee_percent: u16,
) -> int
    decreases dels.len(),
{
    if dels.len() == 0 {
        0
    } else {
        let rest = delegator_fee_total(dels.drop_last(), v, total_reward, fee_percent);
        let d = dels.last();
        if d.validator_id == v.validator_id {
            rest + spec_delegator_fee(
                spec_delegator_share(total_reward, d.deposit_amount, v.total_stake),
                fee_percent,
            )
        } else {
            rest
        }
    }
}

/// Whether every intermediate value of distributing `payout` to `v` and
/// its delegators fits the balance type.
pub open spec fn distribution_fits(
    dels: Seq<Delegator>,
    v: Validator,
    payout: Balance,
    valid_total: Balance,
    fee_percent: u16,
) -> bool {
    let total_reward = spec_total_reward_of(payout, v.total_stake, valid_total);
    &&& payout * v.total_stake <= u128::MAX
    &&& (forall|i: int|
        0 <= i < dels.len() && (#[trigger] dels[i]).validator_id == v.validator_id ==> {
            &&& total_reward * dels[i].deposit_amount <= u128::MAX
            &&& spec_delegator_share(total_reward, dels[i].deposit_amount, v.total_stake)
                * fee_percent <= u128::MAX
        })
    &&& delegator_fee_total(dels, v, total_reward, fee_percent) <= u128::MAX
    &&& total_reward * v.deposit_amount <= u128::MAX
    &&& total_reward * v.deposit_amount / (v.total_stake as int) + delegator_fee_total(
        dels,
        v,
        total_reward,
        fee_percent,
    ) <= u128::MAX
}

/// For nonnegative `a`, `m` and positive `b`: `a * b` stays within `m`
/// exactly when `a` is at most `m / b`.
proof fn lemma_mul_within(a: int, b: int, m: int)
    requires
        0 <= a,
        0 < b,
        0 <= m,
    ensures
        (a * b <= m) <==> (a <= m / b),
        0 <= a * b,
{
    assert((a * b <= m) <==> (a <= m / b)) by (nonlinear_arith)
        requires
            0 <= a,
            0 < b,
            0 <= m,
    ;
    assert(0 <= a * b) by (nonlinear_arith)
        requires
            0 <= a,
            0 < b,
    ;
}

/// Division of a nonnegative value by a positive one stays nonnegative and
/// never grows.
proof fn lemma_div_shrinks(a: int, b: int)
    requires
        0 <= a,
        0 < b,
    ensures
        0 <= a / b,
        a / b <= a,
{
    assert(0 <= a / b && a / b <= a) by (nonlinear_arith)
        requires
            0 <= a,
            0 < b,
    ;
}

/// The delegation fee never exceeds the share it is taken from.
proof fn lemma_fee_bounds(share: int, fee_percent: u16)
    requires
        0 <= share,
        fee_percent <= 100,
    ensures
        0 <= spec_delegator_fee(share, fee_percent),
        spec_delegator_fee(share, fee_percent) <= share,
{
    assert(0 <= share * fee_percent / 100 && share * fee_percent / 100 <= share)
        by (nonlinear_arith)
        requires
            0 <= share,
            0 <= fee_percent <= 100,
    ;
}

/// Fee sums over prefixes never exceed the sum over the whole table.
proof fn lemma_fee_total_prefix(
    dels: Seq<Delegator>,
    v: Validator,
    total_reward: int,
    fee_percent: u16,
    i: int,
)
    requires
        0 <= i <= dels.len(),
        0 <= total_reward,
        0 < v.total_stake,
        fee_percent <= 100,
    ensures
        0 <= delegator_fee_total(dels.subrange(0, i), v, total_reward, fee_percent),
        delegator_fee_total(dels.subrange(0, i), v, total_reward, fee_percent)
            <= delegator_fee_total(dels, v, total_reward, fee_percent),
    decreases dels.len() - i,
{
    if i == dels.len() {
        assert(dels.subrange(0, i) =~= dels);
        lemma_fee_total_nonneg(dels, v, total_reward, fee_percent);
    } else {
        lemma_fee_total_prefix(dels, v, total_reward, fee_percent, i + 1);
        let s1 = dels.subrange(0, i + 1);
        assert(s1.drop_last() =~= dels.subrange(0, i));
        assert(s1.last() == dels[i]);
        lemma_fee_total_nonneg(dels.subrange(0, i), v, total_reward, fee_percent);
        if dels[i].validator_id == v.validator_id {
            assert(0 <= total_reward * dels[i].deposit_amount) by (nonlinear_arith)
                requires
                    0 <= total_reward,
                    0 <= dels[i].deposit_amount,
            ;
            lemma_div_shrinks(total_reward * dels[i].deposit_amount, v.total_stake as int);
            lemma_fee_bounds(
                spec_delegator_share(total_reward, dels[i].deposit_amount, v.total_stake),
                fee_percent,
            );
        }
    }
}

/// Fee sums are nonnegative.
proof fn lemma_fee_total_nonneg(dels: Seq<Delegator>, v: Validator, total_reward: int, fee_percent: u16)
    requires
        0 <= total_reward,
        0 < v.total_stake,
        fee_percent <= 100,
    ensures
        0 <= delegator_fee_total(dels, v, total_reward, fee_percent),
    decreases dels.len(),
{
    if dels.len() > 0 {
        lemma_fee_total_nonneg(dels.drop_last(), v, total_reward, fee_percent);
        let d = dels.last();
        if d.validator_id == v.validator_id {
            assert(0 <= total_reward * d.deposit_amount) by (nonlinear_arith)
                requires
                    0 <= total_reward,
                    0 <= d.deposit_amount,
            ;
            lemma_div_shrinks(total_reward * d.deposit_amount, v.total_stake as int);
            lemma_fee_bounds(
                spec_delegator_share(total_reward, d.deposit_amount, v.total_stake),
                fee_percent,
            );
        }
    }
}


impl ValidatorSetOfEra {
    /// One slice of the `CopyingFromLastEra` phase: copies forward the next
    /// validator of the prior era's snapshot, then the next delegation, one
    /// record per call, stakes and registration stamps preserved. Once both
    /// are exhausted the era moves to `ApplyingStakingHistory`, whose cursor
    /// starts at `history_start_index`.
    pub fn process_copying_step(
        &mut self,
        previous: &ValidatorSet,
        history_start_index: u64,
    ) -> (r: Result<bool, AnchorError>)
        ensures
            (match old(self).processing_status {
                ValidatorSetProcessingStatus::CopyingFromLastEra {
                    copying_validator_index: cv,
                    copying_delegator_index: cd,
                } => {
                    if cv < previous@.validators.len() {
                        let v = previous@.validators[cv as int];
                        if validator_index(old(self).validator_set@.validators, v.validator_id)
                            >= 0 {
                            r == Err::<bool, AnchorError>(AnchorError::ValidatorAlreadyRegistered)
                                && *final(self) == *old(self)
                        } else if old(self).validator_set@.total_stake + v.total_stake
                            > u128::MAX {
                            r == Err::<bool, AnchorError>(AnchorError::ArithmeticOverflow)
                                && *final(self) == *old(self)
                        } else {
                            &&& r == Ok::<bool, AnchorError>(false)
                            &&& final(self).validator_set@.validators == old(self).validator_set@.validators.push(v)
                            &&& final(self).validator_set@.total_stake == old(self).validator_set@.total_stake + v.total_stake
                            &&& final(self).validator_set@.delegators == old(self).validator_set@.delegators
                            &&& final(self).validator_set@.v2d == old(self).validator_set@.v2d
                            &&& final(self).validator_set@.d2v == old(self).validator_set@.d2v
                            &&& final(self).processing_status == (
                            ValidatorSetProcessingStatus::CopyingFromLastEra {
                                copying_validator_index: (cv + 1) as u64,
                                copying_delegator_index: cd,
                            })
                        }
                    } else if cd < previous@.delegators.len() {
                        let d = previous@.delegators[cd as int];
                        if validator_index(old(self).validator_set@.validators, d.validator_id)
                            < 0 || crate::validator_set::delegator_index(
                            old(self).validator_set@.delegators,
                            d.delegator_id,
                            d.validator_id,
                        ) >= 0 {
                            // Not eligible: skipped without copying.
                            &&& r == Ok::<bool, AnchorError>(false)
                            &&& final(self).validator_set == old(self).validator_set
                            &&& final(self).processing_status == (
                            ValidatorSetProcessingStatus::CopyingFromLastEra {
                                copying_validator_index: cv,
                                copying_delegator_index: (cd + 1) as u64,
                            })
                        } else {
                            &&& r == Ok::<bool, AnchorError>(false)
                            &&& final(self).validator_set@.delegators == old(self).validator_set@.delegators.push(d)
                            &&& final(self).validator_set@.v2d == old(self).validator_set@.v2d.push((d.validator_id, d.delegator_id))
                            &&& final(self).validator_set@.d2v == old(self).validator_set@.d2v.push((d.delegator_id, d.validator_id))
                            &&& final(self).validator_set@.validators == old(self).validator_set@.validators
                            &&& final(self).validator_set@.total_stake == old(self).validator_set@.total_stake
                            &&& final(self).processing_status == (
                            ValidatorSetProcessingStatus::CopyingFromLastEra {
                                copying_validator_index: cv,
                                copying_delegator_index: (cd + 1) as u64,
                            })
                        }
                    } else {
                        &&& r == Ok::<bool, AnchorError>(true)
                        &&& final(self).validator_set == old(self).validator_set
                        &&& final(self).processing_status == (
                        ValidatorSetProcessingStatus::ApplyingStakingHistory {
                            applying_index: history_start_index,
                        })
                    }
                },
                _ => r == Err::<bool, AnchorError>(AnchorError::WrongProcessingStatus) && *final(self) == *old(self),
            }),
            final(self).validator_list == old(self).validator_list,
            final(self).start_block_height == old(self).start_block_height,
            final(self).start_timestamp == old(self).start_timestamp,
            final(self).staking_history_index == old(self).staking_history_index,
            final(self).unprofitable_validator_id_set == old(self).unprofitable_validator_id_set,
            final(self).valid_total_stake == old(self).valid_total_stake,
            final(self).validator_set@.era_number == old(self).validator_set@.era_number,
    {
        let status = self.processing_status;
        match status {
            ValidatorSetProcessingStatus::CopyingFromLastEra {
                copying_validator_index: cv,
                copying_delegator_index: cd,
            } => {
                if cv < previous.validators.len() as u64 {
                    let v = previous.validators[cv as usize];
                    let found = find_validator(&self.validator_set.validators, v.validator_id);
                    if found.is_some() {
                        return Err(AnchorError::ValidatorAlreadyRegistered);
                    }
                    if v.total_stake > u128::MAX - self.validator_set.total_stake {
                        return Err(AnchorError::ArithmeticOverflow);
                    }
                    self.validator_set.validators.push(v);
                    self.validator_set.total_stake = self.validator_set.total_stake
                        + v.total_stake;
                    self.processing_status = ValidatorSetProcessingStatus::CopyingFromLastEra {
                        copying_validator_index: cv + 1,
                        copying_delegator_index: cd,
                    };
                    Ok(false)
                } else if cd < previous.delegators.len() as u64 {
                    let d = previous.delegators[cd as usize];
                    let found_v = find_validator(&self.validator_set.validators, d.validator_id);
                    let found_d = crate::validator_set::find_delegator(
                        &self.validator_set.delegators,
                        d.delegator_id,
                        d.validator_id,
                    );
                    if found_v.is_some() && found_d.is_none() {
                        self.validator_set.delegators.push(d);
                        self.validator_set.validator_to_delegator_index.push(
                            (d.validator_id, d.delegator_id),
                        );
                        self.validator_set.delegator_to_validator_index.push(
                            (d.delegator_id, d.validator_id),
                        );
                    }
                    self.processing_status = ValidatorSetProcessingStatus::CopyingFromLastEra {
                        copying_validator_index: cv,
                        copying_delegator_index: cd + 1,
                    };
                    Ok(false)
                } else {
                    self.processing_status = ValidatorSetProcessingStatus::ApplyingStakingHistory {
                        applying_index: history_start_index,
                    };
                    Ok(true)
                }
            },
            _ => Err(AnchorError::WrongProcessingStatus),
        }
    }

    /// One slice of the `ApplyingStakingHistory` phase: folds the ledger
    /// entry under the cursor into the snapshot, one entry per call, until
    /// the cursor passes this era's marker (or the ledger's end); then the
    /// era moves to `MakingValidatorList`.
    pub fn process_applying_step(&mut self, ledger: &StakingHistories) -> (r: Result<
        bool,
        AnchorError,
    >)
        requires
            ledger.well_formed(),
        ensures
            (match old(self).processing_status {
                ValidatorSetProcessingStatus::ApplyingStakingHistory { applying_index: idx } => {
                    if idx <= old(self).staking_history_index && idx < ledger.records().len() {
                        let h = ledger.records()[idx as int];
                        match spec_apply_staking_fact(
                            old(self).validator_set@,
                            h.staking_fact,
                            h.block_height,
                            h.timestamp,
                        ) {
                            Ok(m) => {
                                &&& r == Ok::<bool, AnchorError>(false)
                                &&& final(self).validator_set@ == m
                                &&& final(self).processing_status == (
                                ValidatorSetProcessingStatus::ApplyingStakingHistory {
                                    applying_index: (idx + 1) as u64,
                                })
                            },
                            Err(e) => {
                                &&& r == Err::<bool, AnchorError>(e)
                                &&& final(self).validator_set@ == old(self).validator_set@
                                &&& final(self).processing_status == old(self).processing_status
                            },
                        }
                    } else {
                        &&& r == Ok::<bool, AnchorError>(true)
                        &&& final(self).validator_set == old(self).validator_set
                        &&& final(self).processing_status == (
                        ValidatorSetProcessingStatus::MakingValidatorList { making_index: 0 })
                    }
                },
                _ => r == Err::<bool, AnchorError>(AnchorError::WrongProcessingStatus) && *final(self) == *old(self),
            }),
            final(self).validator_list == old(self).validator_list,
            final(self).start_block_height == old(self).start_block_height,
            final(self).start_timestamp == old(self).start_timestamp,
            final(self).staking_history_index == old(self).staking_history_index,
            final(self).unprofitable_validator_id_set == old(self).unprofitable_validator_id_set,
            final(self).valid_total_stake == old(self).valid_total_stake,
    {
        let status = self.processing_status;
        match status {
            ValidatorSetProcessingStatus::ApplyingStakingHistory { applying_index: idx } => {
                proof {
                    crate::staking::lemma_ledger_indices_dense(*ledger);
                }
                if idx <= self.staking_history_index {
                    let entry = ledger.get(&idx);
                    match entry {
                        Some(h) => {
                            let applied = self.validator_set.apply_staking_history(&h);
                            match applied {
                                Ok(_) => {
                                    self.processing_status =
                                        ValidatorSetProcessingStatus::ApplyingStakingHistory {
                                        applying_index: idx + 1,
                                    };
                                    Ok(false)
                                },
                                Err(e) => Err(e),
                            }
                        },
                        None => {
                            self.processing_status =
                                ValidatorSetProcessingStatus::MakingValidatorList {
                                making_index: 0,
                            };
                            Ok(true)
                        },
                    }
                } else {
                    self.processing_status = ValidatorSetProcessingStatus::MakingValidatorList {
                        making_index: 0,
                    };
                    Ok(true)
                }
            },
            _ => Err(AnchorError::WrongProcessingStatus),
        }
    }

    /// One slice of the `MakingValidatorList` phase: flattens the next
    /// validator into the queryable list, one row per call; when all rows
    /// are built the era becomes `ReadyForDistributingReward`.
    pub fn process_making_list_step(&mut self) -> (r: Result<bool, AnchorError>)
        ensures
            (match old(self).processing_status {
                ValidatorSetProcessingStatus::MakingValidatorList { making_index: mi } => {
                    if mi < old(self).validator_set@.validators.len() {
                        let v = old(self).validator_set@.validators[mi as int];
                        &&& r == Ok::<bool, AnchorError>(false)
                        &&& final(self).validator_list@ == old(self).validator_list@.push(
                            AppchainValidator {
                                validator_id: v.validator_id,
                                validator_id_in_appchain: v.validator_id_in_appchain,
                                deposit_amount: v.deposit_amount,
                                total_stake: v.total_stake,
                                can_be_delegated_to: v.can_be_delegated_to,
                            },
                        )
                        &&& final(self).processing_status == (
                        ValidatorSetProcessingStatus::MakingValidatorList {
                            making_index: (mi + 1) as u64,
                        })
                    } else {
                        &&& r == Ok::<bool, AnchorError>(true)
                        &&& final(self).validator_list == old(self).validator_list
                        &&& final(self).processing_status
                            == ValidatorSetProcessingStatus::ReadyForDistributingReward
                    }
                },
                _ => r == Err::<bool, AnchorError>(AnchorError::WrongProcessingStatus) && *final(self) == *old(self),
            }),
            final(self).validator_set == old(self).validator_set,
            final(self).start_block_height == old(self).start_block_height,
            final(self).start_timestamp == old(self).start_timestamp,
            final(self).staking_history_index == old(self).staking_history_index,
            final(self).unprofitable_validator_id_set == old(self).unprofitable_validator_id_set,
            final(self).valid_total_stake == old(self).valid_total_stake,
    {
        let status = self.processing_status;
        match status {
            ValidatorSetProcessingStatus::MakingValidatorList { making_index: mi } => {
                if mi < self.validator_set.validators.len() as u64 {
                    let v = self.validator_set.validators[mi as usize];
                    self.validator_list.push(
                        AppchainValidator {
                            validator_id: v.validator_id,
                            validator_id_in_appchain: v.validator_id_in_appchain,
                            deposit_amount: v.deposit_amount,
                            total_stake: v.total_stake,
                            can_be_delegated_to: v.can_be_delegated_to,
                        },
                    );
                    self.processing_status = ValidatorSetProcessingStatus::MakingValidatorList {
                        making_index: mi + 1,
                    };
                    Ok(false)
                } else {
                    self.processing_status =
                        ValidatorSetProcessingStatus::ReadyForDistributingReward;
                    Ok(true)
                }
            },
            _ => Err(AnchorError::WrongProcessingStatus),
        }
    }

    /// Receives the era-payout signal: only an era that is
    /// `ReadyForDistributingReward` may start distributing, from the first
    /// validator.
    pub fn start_distributing_reward(&mut self) -> (r: Result<(), AnchorError>)
        ensures
            (if old(self).processing_status
                == ValidatorSetProcessingStatus::ReadyForDistributingReward {
                &&& r is Ok
                &&& final(self).processing_status == (
                ValidatorSetProcessingStatus::DistributingReward {
                    distributing_validator_index: 0,
                    distributing_delegator_index: 0,
                })
            } else {
                r == Err::<(), AnchorError>(AnchorError::WrongProcessingStatus) && final(self).processing_status == old(self).processing_status
            }),
            final(self).validator_set == old(self).validator_set,
            final(self).validator_list == old(self).validator_list,
            final(self).start_block_height == old(self).start_block_height,
            final(self).start_timestamp == old(self).start_timestamp,
            final(self).staking_history_index == old(self).staking_history_index,
            final(self).unprofitable_validator_id_set == old(self).unprofitable_validator_id_set,
            final(self).valid_total_stake == old(self).valid_total_stake,
    {
        if self.processing_status.is_ready_for_distributing_reward() {
            self.processing_status = ValidatorSetProcessingStatus::DistributingReward {
                distributing_validator_index: 0,
                distributing_delegator_index: 0,
            };
            Ok(())
        } else {
            Err(AnchorError::WrongProcessingStatus)
        }
    }
}


impl ValidatorSetOfEra {
    /// One slice of the `DistributingReward` phase: accrues the era payout
    /// of the validator under the cursor — and of all its delegators — into
    /// the given reward ledgers, then advances the cursor. An unprofitable
    /// validator, a validator with no stake, and an era whose eligible
    /// stake is zero are skipped without reward. When every validator has
    /// been handled the era is `Completed`. A rejected call changes
    /// nothing.
    pub fn distribute_reward_step(
        &mut self,
        payout: Balance,
        delegation_fee_percent: u16,
        validator_rewards: &mut Vec<(u64, AccountId, Balance)>,
        delegator_rewards: &mut Vec<(u64, AccountId, AccountId, Balance)>,
    ) -> (r: Result<bool, AnchorError>)
        requires
            delegation_fee_percent <= 100,
        ensures
            (match old(self).processing_status {
                ValidatorSetProcessingStatus::DistributingReward {
                    distributing_validator_index: dv,
                    distributing_delegator_index: _,
                } => {
                    if dv >= old(self).validator_set@.validators.len() {
                        &&& r == Ok::<bool, AnchorError>(true)
                        &&& final(self).processing_status
                            == ValidatorSetProcessingStatus::Completed
                        &&& final(validator_rewards)@ == old(validator_rewards)@
                        &&& final(delegator_rewards)@ == old(delegator_rewards)@
                    } else {
                        let v = old(self).validator_set@.validators[dv as int];
                        let era = old(self).validator_set@.era_number;
                        let total_reward = spec_total_reward_of(
                            payout,
                            v.total_stake,
                            old(self).valid_total_stake,
                        );
                        if old(self).unprofitable_validator_id_set@.contains(v.validator_id)
                            || old(self).valid_total_stake == 0 || v.total_stake == 0 {
                            &&& r == Ok::<bool, AnchorError>(false)
                            &&& final(self).processing_status == (
                            ValidatorSetProcessingStatus::DistributingReward {
                                distributing_validator_index: (dv + 1) as u64,
                                distributing_delegator_index: 0,
                            })
                            &&& final(validator_rewards)@ == old(validator_rewards)@
                            &&& final(delegator_rewards)@ == old(delegator_rewards)@
                        } else if distribution_fits(
                            old(self).validator_set@.delegators,
                            v,
                            payout,
                            old(self).valid_total_stake,
                            delegation_fee_percent,
                        ) {
                            &&& r == Ok::<bool, AnchorError>(false)
                            &&& final(self).processing_status == (
                            ValidatorSetProcessingStatus::DistributingReward {
                                distributing_validator_index: (dv + 1) as u64,
                                distributing_delegator_index: 0,
                            })
                            &&& final(validator_rewards)@ == old(validator_rewards)@.push(
                                (
                                    era,
                                    v.validator_id,
                                    (total_reward * v.deposit_amount / (v.total_stake as int)
                                        + delegator_fee_total(
                                        old(self).validator_set@.delegators,
                                        v,
                                        total_reward,
                                        delegation_fee_percent,
                                    )) as Balance,
                                ),
                            )
                            &&& final(delegator_rewards)@ == old(delegator_rewards)@
                                + delegator_reward_entries(
                                old(self).validator_set@.delegators,
                                era,
                                v,
                                total_reward,
                                delegation_fee_percent,
                            )
                        } else {
                            &&& r == Err::<bool, AnchorError>(AnchorError::ArithmeticOverflow)
                            &&& final(self).processing_status == old(self).processing_status
                            &&& final(validator_rewards)@ == old(validator_rewards)@
                            &&& final(delegator_rewards)@ == old(delegator_rewards)@
                        }
                    }
                },
                _ => {
                    &&& r == Err::<bool, AnchorError>(AnchorError::WrongProcessingStatus)
                    &&& final(self).processing_status == old(self).processing_status
                    &&& final(validator_rewards)@ == old(validator_rewards)@
                    &&& final(delegator_rewards)@ == old(delegator_rewards)@
                },
            }),
            final(self).validator_set == old(self).validator_set,
            final(self).validator_list == old(self).validator_list,
            final(self).start_block_height == old(self).start_block_height,
            final(self).start_timestamp == old(self).start_timestamp,
            final(self).staking_history_index == old(self).staking_history_index,
            final(self).unprofitable_validator_id_set == old(self).unprofitable_validator_id_set,
            final(self).valid_total_stake == old(self).valid_total_stake,
    {
        let status = self.processing_status;
        match status {
            ValidatorSetProcessingStatus::DistributingReward {
                distributing_validator_index: dv,
                distributing_delegator_index: dd0,
            } => {
                if dv >= self.validator_set.validators.len() as u64 {
                    self.processing_status = ValidatorSetProcessingStatus::Completed;
                    return Ok(true);
                }
                let v = self.validator_set.validators[dv as usize];
                let era = self.validator_set.era_number;
                if vec_contains_u64(&self.unprofitable_validator_id_set, v.validator_id)
                    || self.valid_total_stake == 0 || v.total_stake == 0 {
                    self.processing_status = ValidatorSetProcessingStatus::DistributingReward {
                        distributing_validator_index: dv + 1,
                        distributing_delegator_index: 0,
                    };
                    return Ok(false);
                }
                let ghost dels: Seq<Delegator> = self.validator_set@.delegators;
                proof {
                    assert(dels == self.validator_set.delegators@);
                }
                // The validator's whole-era share.
                if payout > u128::MAX / v.total_stake {
                    proof {
                        lemma_mul_within(payout as int, v.total_stake as int, u128::MAX as int);
                    }
                    return Err(AnchorError::ArithmeticOverflow);
                }
                proof {
                    lemma_mul_within(payout as int, v.total_stake as int, u128::MAX as int);
                }
                let total_reward: u128 = (payout * v.total_stake) / self.valid_total_stake;
                proof {
                    lemma_div_shrinks(payout * v.total_stake, self.valid_total_stake as int);
                }
                // The delegators' shares, gathered before anything commits.
                let ghost total_reward_i: int = total_reward as int;
                let mut entries: Vec<(u64, AccountId, AccountId, Balance)> = Vec::new();
                let mut fee_total: u128 = 0;
                let n = self.validator_set.delegators.len();
                let mut i: usize = 0;
                while i < n
                    invariant
                        i <= n,
                        n == dels.len(),
                        *self == *old(self),
                        validator_rewards@ == old(validator_rewards)@,
                        delegator_rewards@ == old(delegator_rewards)@,
                        self.validator_set.delegators@ == dels,
                        0 <= total_reward_i <= u128::MAX,
                        v.total_stake > 0,
                        delegation_fee_percent <= 100,
                        self.validator_set@.era_number == era,
                        old(self).processing_status == (
                        ValidatorSetProcessingStatus::DistributingReward {
                            distributing_validator_index: dv,
                            distributing_delegator_index: dd0,
                        }),
                        dv < old(self).validator_set@.validators.len(),
                        v == old(self).validator_set@.validators[dv as int],
                        !old(self).unprofitable_validator_id_set@.contains(v.validator_id),
                        old(self).valid_total_stake > 0,
                        payout * v.total_stake <= u128::MAX,
                        total_reward_i == spec_total_reward_of(
                            payout,
                            v.total_stake,
                            old(self).valid_total_stake,
                        ),
                        total_reward as int == total_reward_i,
                        entries@ == delegator_reward_entries(
                            dels.subrange(0, i as int),
                            era,
                            v,
                            total_reward_i,
                            delegation_fee_percent,
                        ),
                        fee_total as int == delegator_fee_total(
                            dels.subrange(0, i as int),
                            v,
                            total_reward_i,
                            delegation_fee_percent,
                        ),
                        forall|j: int|
                            0 <= j < i && (#[trigger] dels[j]).validator_id == v.validator_id
                                ==> total_reward_i * dels[j].deposit_amount <= u128::MAX
                                && spec_delegator_share(
                                total_reward_i,
                                dels[j].deposit_amount,
                                v.total_stake,
                            ) * delegation_fee_percent <= u128::MAX,
                    decreases n - i,
                {
                    let d = self.validator_set.delegators[i];
                    proof {
                        let sub1 = dels.subrange(0, i as int + 1);
                        assert(sub1.drop_last() =~= dels.subrange(0, i as int));
                        assert(sub1.last() == d);
                    }
                    if d.validator_id == v.validator_id {
                        if d.deposit_amount > 0 && total_reward > u128::MAX / d.deposit_amount {
                            proof {
                                lemma_mul_within(
                                    total_reward_i,
                                    d.deposit_amount as int,
                                    u128::MAX as int,
                                );
                                assert(total_reward_i == spec_total_reward_of(payout, v.total_stake, self.valid_total_stake));
                                assert(total_reward_i * d.deposit_amount > u128::MAX);
                                assert(!distribution_fits(dels, v, payout, self.valid_total_stake, delegation_fee_percent));
                            }
                            return Err(AnchorError::ArithmeticOverflow);
                        }
                        proof {
                            if d.deposit_amount > 0 {
                                lemma_mul_within(
                                    total_reward_i,
                                    d.deposit_amount as int,
                                    u128::MAX as int,
                                );
                            }
                            assert(total_reward_i * d.deposit_amount <= u128::MAX);
                        }
                        let share: u128 = (total_reward * d.deposit_amount) / v.total_stake;
                        proof {
                            lemma_div_shrinks(
                                total_reward_i * d.deposit_amount,
                                v.total_stake as int,
                            );
                        }
                        if share > 0 && delegation_fee_percent > 0 && share > u128::MAX / (
                        delegation_fee_percent as u128) {
                            proof {
                                lemma_mul_within(
                                    share as int,
                                    delegation_fee_percent as int,
                                    u128::MAX as int,
                                );
                            }
                            return Err(AnchorError::ArithmeticOverflow);
                        }
                        proof {
                            if delegation_fee_percent > 0 {
                                lemma_mul_within(
                                    share as int,
                                    delegation_fee_percent as int,
                                    u128::MAX as int,
                                );
                            } else {
                                assert(share * delegation_fee_percent == 0) by (nonlinear_arith)
                                    requires
                                        delegation_fee_percent == 0,
                                ;
                            }
                            assert(share * delegation_fee_percent <= u128::MAX);
                        }
                        let fee: u128 = (share * (delegation_fee_percent as u128)) / 100;
                        proof {
                            lemma_fee_bounds(share as int, delegation_fee_percent);
                        }
                        if fee > u128::MAX - fee_total {
                            proof {
                                lemma_fee_total_prefix(
                                    dels,
                                    v,
                                    total_reward_i,
                                    delegation_fee_percent,
                                    i as int + 1,
                                );
                            }
                            return Err(AnchorError::ArithmeticOverflow);
                        }
                        fee_total = fee_total + fee;
                        entries.push((era, d.delegator_id, v.validator_id, share - fee));
                    }
                    i += 1;
                }
                proof {
                    assert(dels.subrange(0, dels.len() as int) =~= dels);
                }
                // The validator's own deposit-weighted cut, plus the fees.
                if v.deposit_amount > 0 && total_reward > u128::MAX / v.deposit_amount {
                    proof {
                        lemma_mul_within(total_reward_i, v.deposit_amount as int, u128::MAX as int);
                    }
                    return Err(AnchorError::ArithmeticOverflow);
                }
                proof {
                    if v.deposit_amount > 0 {
                        lemma_mul_within(total_reward_i, v.deposit_amount as int, u128::MAX as int);
                    }
                }
                let base: u128 = (total_reward * v.deposit_amount) / v.total_stake;
                proof {
                    lemma_div_shrinks(total_reward_i * v.deposit_amount, v.total_stake as int);
                }
                if base > u128::MAX - fee_total {
                    return Err(AnchorError::ArithmeticOverflow);
                }
                validator_rewards.push((era, v.validator_id, base + fee_total));
                delegator_rewards.append(&mut entries);
                self.processing_status = ValidatorSetProcessingStatus::DistributingReward {
                    distributing_validator_index: dv + 1,
                    distributing_delegator_index: 0,
                };
                Ok(false)
            },
            _ => Err(AnchorError::WrongProcessingStatus),
        }
    }
}


/// The contiguous history of sealed eras, indexed by era number from zero.
pub struct ValidatorSetHistories {
    histories: Vec<ValidatorSetOfEra>,
    start_index: u64,
    end_index: u64,
}

impl ValidatorSetHistories {
    /// The sealed eras, in era order.
    pub closed spec fn eras(self) -> Seq<ValidatorSetOfEra> {
        self.histories@
    }

    /// Era numbers are dense from zero; the end index points at the latest
    /// sealed era (or zero while none is sealed).
    pub closed spec fn well_formed(self) -> bool {
        &&& self.start_index == 0
        &&& self.histories@.len() <= u64::MAX
        &&& self.end_index == if self.histories@.len() == 0 {
            0int
        } else {
            self.histories@.len() - 1
        }
    }

    /// The first valid era number.
    pub closed spec fn start_index(self) -> u64 {
        self.start_index
    }

    /// The latest sealed era number (zero while the history is empty).
    pub closed spec fn end_index(self) -> u64 {
        self.end_index
    }

    /// An empty history.
    pub fn new() -> (r: Self)
        ensures
            r.well_formed(),
            r.eras() =~= Seq::<ValidatorSetOfEra>::empty(),
            r.end_index() == 0,
    {
        Self { histories: Vec::new(), start_index: 0, end_index: 0 }
    }

    /// What `well_formed` gives every reader of this history.
    pub proof fn lemma_well_formed(self)
        requires
            self.well_formed(),
        ensures
            self.start_index() == 0,
            self.eras().len() <= u64::MAX,
            self.end_index() == if self.eras().len() == 0 {
                0int
            } else {
                self.eras().len() - 1
            },
    {
    }

    /// The range of valid era numbers, `[start_index, end_index]`.
    pub fn index_range(&self) -> (r: IndexRange)
        ensures
            r.start_index == self.start_index(),
            r.end_index == self.end_index(),
    {
        IndexRange { start_index: self.start_index, end_index: self.end_index }
    }

    /// Whether an era with this number has been sealed.
    pub fn contains(&self, era_number: &u64) -> (r: bool)
        ensures
            r == (*era_number < self.eras().len()),
    {
        *era_number < self.histories.len() as u64
    }

    /// The sealed era with this number, if it exists.
    pub fn get(&self, era_number: &u64) -> (r: Option<&ValidatorSetOfEra>)
        ensures
            (match r {
                Some(e) => *era_number < self.eras().len() && *e == self.eras()[*era_number as int],
                None => *era_number >= self.eras().len(),
            }),
    {
        if *era_number < self.histories.len() as u64 {
            Some(&self.histories[*era_number as usize])
        } else {
            None
        }
    }

    /// Stores `validator_set` as era `era_number`: overwriting a sealed
    /// era, or sealing the next one; a gap beyond the next era is rejected,
    /// changing nothing.
    pub fn insert(&mut self, era_number: &u64, validator_set: ValidatorSetOfEra) -> (r: Result<
        (),
        AnchorError,
    >)
        requires
            old(self).well_formed(),
            old(self).eras().len() < u64::MAX,
        ensures
            final(self).well_formed(),
            (if *era_number < old(self).eras().len() {
                r is Ok && final(self).eras() == old(self).eras().update(
                    *era_number as int,
                    validator_set,
                )
            } else if *era_number == old(self).eras().len() {
                r is Ok && final(self).eras() == old(self).eras().push(validator_set)
            } else {
                r == Err::<(), AnchorError>(AnchorError::EraOutOfRange) && final(self).eras()
                    == old(self).eras()
            }),
    {
        let n = self.histories.len() as u64;
        if *era_number < n {
            self.histories[*era_number as usize] = validator_set;
            Ok(())
        } else if *era_number == n {
            self.histories.push(validator_set);
            self.end_index = n;
            Ok(())
        } else {
            Err(AnchorError::EraOutOfRange)
        }
    }
}

} // verus!
