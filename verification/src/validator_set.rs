//! The validator-set engine: the live snapshot of validators and delegators
//! for the currently accumulating era, and the transition that folds one
//! staking fact into it.
//!
//! The snapshot keeps two cross-index pair lists — validator-to-delegator
//! and delegator-to-validator — that are maintained together with the
//! delegation table so that they always describe the same delegations.

use vstd::prelude::*;

use crate::types::{AccountId, AccountIdInAppchain, AnchorError, Balance, BlockHeight, StakingFact,
    StakingHistory, Timestamp};

verus! {

/// A validator of the external chain, as registered with the anchor.
#[derive(Clone, Copy, PartialEq, Eq, Structural, Debug)]
pub struct Validator {
    /// The validator's account with the anchor.
    pub validator_id: AccountId,
    /// The validator's account on the external chain.
    pub validator_id_in_appchain: AccountIdInAppchain,
    /// The block height when the validator was registered.
    pub registered_block_height: BlockHeight,
    /// The timestamp when the validator was registered.
    pub registered_timestamp: Timestamp,
    /// The validator's own deposited balance.
    pub deposit_amount: Balance,
    /// The validator's total stake, its own deposit plus all delegations.
    pub total_stake: Balance,
    /// Whether the validator accepts delegations.
    pub can_be_delegated_to: bool,
}

/// One delegation of a delegator to a validator. A delegator may hold
/// independent delegations to several validators; each is its own record,
/// keyed by the (delegator, validator) pair.
#[derive(Clone, Copy, PartialEq, Eq, Structural, Debug)]
pub struct Delegator {
    /// The delegator's account with the anchor.
    pub delegator_id: AccountId,
    /// The validator this delegation goes to.
    pub validator_id: AccountId,
    /// The block height when the delegation was opened.
    pub registered_block_height: BlockHeight,
    /// The timestamp when the delegation was opened.
    pub registered_timestamp: Timestamp,
    /// The delegated balance.
    pub deposit_amount: Balance,
}

/// One row of the flattened validator list kept for external reads.
#[derive(Clone, Copy, PartialEq, Eq, Structural, Debug)]
pub struct AppchainValidator {
    pub validator_id: AccountId,
    pub validator_id_in_appchain: AccountIdInAppchain,
    pub deposit_amount: Balance,
    pub total_stake: Balance,
    pub can_be_delegated_to: bool,
}

/// The mathematical content of a [`ValidatorSet`]: its tables as sequences.
#[verifier::ext_equal]
pub ghost struct ValidatorSetView {
    pub era_number: u64,
    pub validators: Seq<Validator>,
    pub delegators: Seq<Delegator>,
    /// (validator, delegator) pairs: the validator-to-delegator index.
    pub v2d: Seq<(AccountId, AccountId)>,
    /// (delegator, validator) pairs: the delegator-to-validator index.
    pub d2v: Seq<(AccountId, AccountId)>,
    pub total_stake: Balance,
}

/// The live, mutable snapshot of the validator set of one era.
pub struct ValidatorSet {
    /// The era this snapshot accumulates for.
    pub era_number: u64,
    /// The validators, with distinct account ids.
    pub validators: Vec<Validator>,
    /// The delegations, with distinct (delegator, validator) pairs.
    pub delegators: Vec<Delegator>,
    /// The validator-to-delegator index: one (validator, delegator) pair per
    /// delegation.
    pub validator_to_delegator_index: Vec<(AccountId, AccountId)>,
    /// The delegator-to-validator index: one (delegator, validator) pair per
    /// delegation.
    pub delegator_to_validator_index: Vec<(AccountId, AccountId)>,
    /// The sum of all validators' total stake.
    pub total_stake: Balance,
}

impl View for ValidatorSet {
    type V = ValidatorSetView;

    open spec fn view(&self) -> ValidatorSetView {
        ValidatorSetView {
            era_number: self.era_number,
            validators: self.validators@,
            delegators: self.delegators@,
            v2d: self.validator_to_delegator_index@,
            d2v: self.delegator_to_validator_index@,
            total_stake: self.total_stake,
        }
    }
}

/// The position of the first validator with account `id`, or `-1`.
pub open spec fn validator_index(s: Seq<Validator>, id: AccountId) -> int
    decreases s.len(),
{
    if s.len() == 0 {
        -1
    } else if s[0].validator_id == id {
        0
    } else {
        let r = validator_index(s.drop_first(), id);
        if r < 0 {
            -1
        } else {
            r + 1
        }
    }
}

/// The position of the first delegation of `d` to `v`, or `-1`.
pub open spec fn delegator_index(s: Seq<Delegator>, d: AccountId, v: AccountId) -> int
    decreases s.len(),
{
    if s.len() == 0 {
        -1
    } else if s[0].delegator_id == d && s[0].validator_id == v {
        0
    } else {
        let r = delegator_index(s.drop_first(), d, v);
        if r < 0 {
            -1
        } else {
            r + 1
        }
    }
}

/// What `validator_index` returns: the first position holding `id`, in
/// range, or `-1` when no position holds it.
pub proof fn lemma_validator_index(s: Seq<Validator>, id: AccountId)
    ensures
        validator_index(s, id) >= 0 ==> {
            &&& validator_index(s, id) < s.len()
            &&& s[validator_index(s, id)].validator_id == id
            &&& forall|j: int|
                0 <= j < validator_index(s, id) ==> (#[trigger] s[j]).validator_id != id
        },
        validator_index(s, id) < 0 ==> forall|j: int|
            0 <= j < s.len() ==> (#[trigger] s[j]).validator_id != id,
    decreases s.len(),
{
    if s.len() > 0 && s[0].validator_id != id {
        let t = s.drop_first();
        lemma_validator_index(t, id);
        let r = validator_index(t, id);
        if r >= 0 {
            assert(s[r + 1] == t[r]);
            assert forall|j: int|
                0 <= j < validator_index(s, id) implies (#[trigger] s[j]).validator_id != id by {
                if j > 0 {
                    assert(s[j] == t[j - 1]);
                }
            }
        } else {
            assert forall|j: int| 0 <= j < s.len() implies (#[trigger] s[j]).validator_id != id by {
                if j > 0 {
                    assert(s[j] == t[j - 1]);
                }
            }
        }
    }
}

/// `validator_index` is determined by any witness of a first occurrence.
pub proof fn lemma_validator_index_unique(s: Seq<Validator>, id: AccountId, k: int)
    requires
        0 <= k < s.len(),
        s[k].validator_id == id,
        forall|j: int| 0 <= j < k ==> (#[trigger] s[j]).validator_id != id,
    ensures
        validator_index(s, id) == k,
    decreases s.len(),
{
    if k > 0 {
        let t = s.drop_first();
        assert(t[k - 1] == s[k]);
        assert forall|j: int| 0 <= j < k - 1 implies (#[trigger] t[j]).validator_id != id by {
            assert(t[j] == s[j + 1]);
        }
        lemma_validator_index_unique(t, id, k - 1);
    }
}

/// What `delegator_index` returns, as `lemma_validator_index` does.
pub proof fn lemma_delegator_index(s: Seq<Delegator>, d: AccountId, v: AccountId)
    ensures
        delegator_index(s, d, v) >= 0 ==> {
            &&& delegator_index(s, d, v) < s.len()
            &&& s[delegator_index(s, d, v)].delegator_id == d
            &&& s[delegator_index(s, d, v)].validator_id == v
            &&& forall|j: int|
                0 <= j < delegator_index(s, d, v) ==> !((#[trigger] s[j]).delegator_id == d
                    && s[j].validator_id == v)
        },
        delegator_index(s, d, v) < 0 ==> forall|j: int|
            0 <= j < s.len() ==> !((#[trigger] s[j]).delegator_id == d && s[j].validator_id == v),
    decreases s.len(),
{
    if s.len() > 0 && !(s[0].delegator_id == d && s[0].validator_id == v) {
        let t = s.drop_first();
        lemma_delegator_index(t, d, v);
        let r = delegator_index(t, d, v);
        if r >= 0 {
            assert(s[r + 1] == t[r]);
            assert forall|j: int|
                0 <= j < delegator_index(s, d, v) implies !((#[trigger] s[j]).delegator_id == d
                    && s[j].validator_id == v) by {
                if j > 0 {
                    assert(s[j] == t[j - 1]);
                }
            }
        } else {
            assert forall|j: int|
                0 <= j < s.len() implies !((#[trigger] s[j]).delegator_id == d && s[j].validator_id
                    == v) by {
                if j > 0 {
                    assert(s[j] == t[j - 1]);
                }
            }
        }
    }
}

/// `delegator_index` is determined by any witness of a first occurrence.
pub proof fn lemma_delegator_index_unique(s: Seq<Delegator>, d: AccountId, v: AccountId, k: int)
    requires
        0 <= k < s.len(),
        s[k].delegator_id == d,
        s[k].validator_id == v,
        forall|j: int|
            0 <= j < k ==> !((#[trigger] s[j]).delegator_id == d && s[j].validator_id == v),
    ensures
        delegator_index(s, d, v) == k,
    decreases s.len(),
{
    if k > 0 {
        let t = s.drop_first();
        assert(t[k - 1] == s[k]);
        assert forall|j: int|
            0 <= j < k - 1 implies !((#[trigger] t[j]).delegator_id == d && t[j].validator_id
                == v) by {
            assert(t[j] == s[j + 1]);
        }
        lemma_delegator_index_unique(t, d, v, k - 1);
    }
}

/// The delegations that survive a validator's unbonding: all whose
/// validator is not `v`, in their original order.
pub open spec fn delegators_without_validator(s: Seq<Delegator>, v: AccountId) -> Seq<Delegator>
    decreases s.len(),
{
    if s.len() == 0 {
        s
    } else {
        let rest = delegators_without_validator(s.drop_last(), v);
        if s.last().validator_id == v {
            rest
        } else {
            rest.push(s.last())
        }
    }
}

/// The index pairs that survive dropping every pair whose first component
/// is `a`, in their original order.
pub open spec fn pairs_without_left(s: Seq<(AccountId, AccountId)>, a: AccountId) -> Seq<
    (AccountId, AccountId),
>
    decreases s.len(),
{
    if s.len() == 0 {
        s
    } else {
        let rest = pairs_without_left(s.drop_last(), a);
        if s.last().0 == a {
            rest
        } else {
            rest.push(s.last())
        }
    }
}

/// The index pairs that survive dropping every pair whose second component
/// is `b`, in their original order.
pub open spec fn pairs_without_right(s: Seq<(AccountId, AccountId)>, b: AccountId) -> Seq<
    (AccountId, AccountId),
>
    decreases s.len(),
{
    if s.len() == 0 {
        s
    } else {
        let rest = pairs_without_right(s.drop_last(), b);
        if s.last().1 == b {
            rest
        } else {
            rest.push(s.last())
        }
    }
}

/// The index pairs that survive dropping every occurrence of `(a, b)`, in
/// their original order.
pub open spec fn pairs_without(s: Seq<(AccountId, AccountId)>, a: AccountId, b: AccountId) -> Seq<
    (AccountId, AccountId),
>
    decreases s.len(),
{
    if s.len() == 0 {
        s
    } else {
        let rest = pairs_without(s.drop_last(), a, b);
        if s.last().0 == a && s.last().1 == b {
            rest
        } else {
            rest.push(s.last())
        }
    }
}

/// The number of index pairs whose first component is `a`.
pub open spec fn count_pairs_with_left(s: Seq<(AccountId, AccountId)>, a: AccountId) -> int
    decreases s.len(),
{
    if s.len() == 0 {
        0
    } else {
        count_pairs_with_left(s.drop_last(), a) + if s.last().0 == a {
            1int
        } else {
            0int
        }
    }
}

/// What survives `delegators_without_validator`: exactly the delegations to
/// other validators.
pub proof fn lemma_delegators_without_validator(s: Seq<Delegator>, v: AccountId)
    ensures
        delegators_without_validator(s, v).len() <= s.len(),
        forall|i: int|
            0 <= i < delegators_without_validator(s, v).len() ==> (#[trigger] delegators_without_validator(s, v)[i]).validator_id != v
                && s.contains(delegators_without_validator(s, v)[i]),
        forall|i: int|
            0 <= i < s.len() && (#[trigger] s[i]).validator_id != v
                ==> delegators_without_validator(s, v).contains(s[i]),
    decreases s.len(),
{
    if s.len() > 0 {
        let t = s.drop_last();
        lemma_delegators_without_validator(t, v);
        let rest = delegators_without_validator(t, v);
        let out = delegators_without_validator(s, v);
        assert forall|i: int|
            0 <= i < out.len() implies (#[trigger] out[i]).validator_id != v && s.contains(
            out[i],
        ) by {
            if i < rest.len() {
                assert(out[i] == rest[i]);
                let j = choose|j: int| 0 <= j < t.len() && t[j] == rest[i];
                assert(s[j] == t[j]);
            } else {
                assert(out[i] == s.last());
            }
        }
        assert forall|i: int|
            0 <= i < s.len() && (#[trigger] s[i]).validator_id != v implies out.contains(
            s[i],
        ) by {
            if i < s.len() - 1 {
                assert(t[i] == s[i]);
                assert(rest.contains(t[i]));
                let j = choose|j: int| 0 <= j < rest.len() && rest[j] == t[i];
                assert(out[j] == rest[j]);
            } else {
                assert(out[out.len() - 1] == s.last());
            }
        }
    }
}

/// What survives `pairs_without_left`: exactly the pairs led by another id.
pub proof fn lemma_pairs_without_left(s: Seq<(AccountId, AccountId)>, a: AccountId)
    ensures
        pairs_without_left(s, a).len() <= s.len(),
        forall|i: int|
            0 <= i < pairs_without_left(s, a).len() ==> (#[trigger] pairs_without_left(s, a)[i]).0 != a
                && s.contains(pairs_without_left(s, a)[i]),
        forall|i: int|
            0 <= i < s.len() && (#[trigger] s[i]).0 != a ==> pairs_without_left(s, a).contains(s[i]),
    decreases s.len(),
{
    if s.len() > 0 {
        let t = s.drop_last();
        lemma_pairs_without_left(t, a);
        let rest = pairs_without_left(t, a);
        let out = pairs_without_left(s, a);
        assert forall|i: int| 0 <= i < out.len() implies (#[trigger] out[i]).0 != a && s.contains(
            out[i],
        ) by {
            if i < rest.len() {
                assert(out[i] == rest[i]);
                let j = choose|j: int| 0 <= j < t.len() && t[j] == rest[i];
                assert(s[j] == t[j]);
            } else {
                assert(out[i] == s.last());
            }
        }
        assert forall|i: int| 0 <= i < s.len() && (#[trigger] s[i]).0 != a implies out.contains(
            s[i],
        ) by {
            if i < s.len() - 1 {
                assert(t[i] == s[i]);
                assert(rest.contains(t[i]));
                let j = choose|j: int| 0 <= j < rest.len() && rest[j] == t[i];
                assert(out[j] == rest[j]);
            } else {
                assert(out[out.len() - 1] == s.last());
            }
        }
    }
}

/// What survives `pairs_without_right`: exactly the pairs ended by another id.
pub proof fn lemma_pairs_without_right(s: Seq<(AccountId, AccountId)>, b: AccountId)
    ensures
        pairs_without_right(s, b).len() <= s.len(),
        forall|i: int|
            0 <= i < pairs_without_right(s, b).len() ==> (#[trigger] pairs_without_right(s, b)[i]).1 != b
                && s.contains(pairs_without_right(s, b)[i]),
        forall|i: int|
            0 <= i < s.len() && (#[trigger] s[i]).1 != b ==> pairs_without_right(s, b).contains(s[i]),
    decreases s.len(),
{
    if s.len() > 0 {
        let t = s.drop_last();
        lemma_pairs_without_right(t, b);
        let rest = pairs_without_right(t, b);
        let out = pairs_without_right(s, b);
        assert forall|i: int| 0 <= i < out.len() implies (#[trigger] out[i]).1 != b && s.contains(
            out[i],
        ) by {
            if i < rest.len() {
                assert(out[i] == rest[i]);
                let j = choose|j: int| 0 <= j < t.len() && t[j] == rest[i];
                assert(s[j] == t[j]);
            } else {
                assert(out[i] == s.last());
            }
        }
        assert forall|i: int| 0 <= i < s.len() && (#[trigger] s[i]).1 != b implies out.contains(
            s[i],
        ) by {
            if i < s.len() - 1 {
                assert(t[i] == s[i]);
                assert(rest.contains(t[i]));
                let j = choose|j: int| 0 <= j < rest.len() && rest[j] == t[i];
                assert(out[j] == rest[j]);
            } else {
                assert(out[out.len() - 1] == s.last());
            }
        }
    }
}

/// What survives `pairs_without`: exactly the pairs other than `(a, b)`.
pub proof fn lemma_pairs_without(s: Seq<(AccountId, AccountId)>, a: AccountId, b: AccountId)
    ensures
        pairs_without(s, a, b).len() <= s.len(),
        forall|i: int|
            0 <= i < pairs_without(s, a, b).len() ==> (#[trigger] pairs_without(s, a, b)[i]) != (a, b)
                && s.contains(pairs_without(s, a, b)[i]),
        forall|i: int|
            0 <= i < s.len() && (#[trigger] s[i]) != (a, b) ==> pairs_without(s, a, b).contains(s[i]),
    decreases s.len(),
{
    if s.len() > 0 {
        let t = s.drop_last();
        lemma_pairs_without(t, a, b);
        let rest = pairs_without(t, a, b);
        let out = pairs_without(s, a, b);
        assert forall|i: int| 0 <= i < out.len() implies (#[trigger] out[i]) != (a, b) && s.contains(
            out[i],
        ) by {
            if i < rest.len() {
                assert(out[i] == rest[i]);
                let j = choose|j: int| 0 <= j < t.len() && t[j] == rest[i];
                assert(s[j] == t[j]);
            } else {
                assert(out[i] == s.last());
            }
        }
        assert forall|i: int| 0 <= i < s.len() && (#[trigger] s[i]) != (a, b) implies out.contains(
            s[i],
        ) by {
            if i < s.len() - 1 {
                assert(t[i] == s[i]);
                assert(rest.contains(t[i]));
                let j = choose|j: int| 0 <= j < rest.len() && rest[j] == t[i];
                assert(out[j] == rest[j]);
            } else {
                assert(out[out.len() - 1] == s.last());
            }
        }
    }
}


/// The transition a single staking fact makes on a snapshot: either the
/// snapshot after the fact, or the error that rejects it and leaves the
/// snapshot untouched. The recorded block height and timestamp stamp any
/// record the fact creates.
pub open spec fn spec_apply_staking_fact(
    pre: ValidatorSetView,
    fact: StakingFact,
    block_height: BlockHeight,
    timestamp: Timestamp,
) -> Result<ValidatorSetView, AnchorError> {
    match fact {
        StakingFact::ValidatorRegistered {
            validator_id,
            validator_id_in_appchain,
            amount,
            can_be_delegated_to,
        } => {
            if validator_index(pre.validators, validator_id) >= 0 {
                Err(AnchorError::ValidatorAlreadyRegistered)
            } else if pre.total_stake + amount > u128::MAX {
                Err(AnchorError::ArithmeticOverflow)
            } else {
                Ok(ValidatorSetView {
                    validators: pre.validators.push(
                        Validator {
                            validator_id,
                            validator_id_in_appchain,
                            registered_block_height: block_height,
                            registered_timestamp: timestamp,
                            deposit_amount: amount,
                            total_stake: amount,
                            can_be_delegated_to,
                        },
                    ),
                    total_stake: (pre.total_stake + amount) as Balance,
                    ..pre
                })
            }
        },
        StakingFact::StakeIncreased { validator_id, amount } => {
            let i = validator_index(pre.validators, validator_id);
            if i < 0 {
                Err(AnchorError::ValidatorNotFound)
            } else {
                let val = pre.validators[i];
                if val.deposit_amount + amount > u128::MAX || val.total_stake + amount > u128::MAX
                    || pre.total_stake + amount > u128::MAX {
                    Err(AnchorError::ArithmeticOverflow)
                } else {
                    Ok(ValidatorSetView {
                        validators: pre.validators.update(
                            i,
                            Validator {
                                deposit_amount: (val.deposit_amount + amount) as Balance,
                                total_stake: (val.total_stake + amount) as Balance,
                                ..val
                            },
                        ),
                        total_stake: (pre.total_stake + amount) as Balance,
                        ..pre
                    })
                }
            }
        },
        StakingFact::StakeDecreased { validator_id, amount } => {
            let i = validator_index(pre.validators, validator_id);
            if i < 0 {
                Err(AnchorError::ValidatorNotFound)
            } else {
                let val = pre.validators[i];
                if amount > val.deposit_amount || amount > val.total_stake || amount
                    > pre.total_stake {
                    Err(AnchorError::AmountExceedsBalance)
                } else {
                    Ok(ValidatorSetView {
                        validators: pre.validators.update(
                            i,
                            Validator {
                                deposit_amount: (val.deposit_amount - amount) as Balance,
                                total_stake: (val.total_stake - amount) as Balance,
                                ..val
                            },
                        ),
                        total_stake: (pre.total_stake - amount) as Balance,
                        ..pre
                    })
                }
            }
        },
        StakingFact::ValidatorUnbonded { validator_id, amount: _ } => {
            let i = validator_index(pre.validators, validator_id);
            if i < 0 {
                Err(AnchorError::ValidatorNotFound)
            } else {
                let val = pre.validators[i];
                if val.total_stake > pre.total_stake {
                    Err(AnchorError::AmountExceedsBalance)
                } else {
                    Ok(ValidatorSetView {
                        era_number: pre.era_number,
                        validators: pre.validators.remove(i),
                        delegators: delegators_without_validator(pre.delegators, validator_id),
                        v2d: pairs_without_left(pre.v2d, validator_id),
                        d2v: pairs_without_right(pre.d2v, validator_id),
                        total_stake: (pre.total_stake - val.total_stake) as Balance,
                    })
                }
            }
        },
        StakingFact::ValidatorDelegationEnabled { validator_id } => {
            let i = validator_index(pre.validators, validator_id);
            if i < 0 {
                Err(AnchorError::ValidatorNotFound)
            } else {
                Ok(ValidatorSetView {
                    validators: pre.validators.update(
                        i,
                        Validator { can_be_delegated_to: true, ..pre.validators[i] },
                    ),
                    ..pre
                })
            }
        },
        StakingFact::ValidatorDelegationDisabled { validator_id } => {
            let i = validator_index(pre.validators, validator_id);
            if i < 0 {
                Err(AnchorError::ValidatorNotFound)
            } else {
                Ok(ValidatorSetView {
                    validators: pre.validators.update(
                        i,
                        Validator { can_be_delegated_to: false, ..pre.validators[i] },
                    ),
                    ..pre
                })
            }
        },
        StakingFact::DelegatorRegistered { delegator_id, validator_id, amount } => {
            if delegator_index(pre.delegators, delegator_id, validator_id) >= 0 {
                Err(AnchorError::DelegatorAlreadyRegistered)
            } else {
                let vi = validator_index(pre.validators, validator_id);
                if vi < 0 {
                    Err(AnchorError::ValidatorNotFound)
                } else {
                    let val = pre.validators[vi];
                    if val.total_stake + amount > u128::MAX || pre.total_stake + amount
                        > u128::MAX {
                        Err(AnchorError::ArithmeticOverflow)
                    } else {
                        Ok(ValidatorSetView {
                            era_number: pre.era_number,
                            validators: pre.validators.update(
                                vi,
                                Validator {
                                    total_stake: (val.total_stake + amount) as Balance,
                                    ..val
                                },
                            ),
                            delegators: pre.delegators.push(
                                Delegator {
                                    delegator_id,
                                    validator_id,
                                    registered_block_height: block_height,
                                    registered_timestamp: timestamp,
                                    deposit_amount: amount,
                                },
                            ),
                            v2d: pre.v2d.push((validator_id, delegator_id)),
                            d2v: pre.d2v.push((delegator_id, validator_id)),
                            total_stake: (pre.total_stake + amount) as Balance,
                        })
                    }
                }
            }
        },
        StakingFact::DelegationIncreased { delegator_id, validator_id, amount } => {
            let di = delegator_index(pre.delegators, delegator_id, validator_id);
            if di < 0 {
                Err(AnchorError::DelegatorNotFound)
            } else {
                let vi = validator_index(pre.validators, validator_id);
                if vi < 0 {
                    Err(AnchorError::ValidatorNotFound)
                } else {
                    let del = pre.delegators[di];
                    let val = pre.validators[vi];
                    if del.deposit_amount + amount > u128::MAX || val.total_stake + amount
                        > u128::MAX || pre.total_stake + amount > u128::MAX {
                        Err(AnchorError::ArithmeticOverflow)
                    } else {
                        Ok(ValidatorSetView {
                            era_number: pre.era_number,
                            validators: pre.validators.update(
                                vi,
                                Validator {
                                    total_stake: (val.total_stake + amount) as Balance,
                                    ..val
                                },
                            ),
                            delegators: pre.delegators.update(
                                di,
                                Delegator {
                                    deposit_amount: (del.deposit_amount + amount) as Balance,
                                    ..del
                                },
                            ),
                            v2d: pre.v2d,
                            d2v: pre.d2v,
                            total_stake: (pre.total_stake + amount) as Balance,
                        })
                    }
                }
            }
        },
        StakingFact::DelegationDecreased { delegator_id, validator_id, amount } => {
            let di = delegator_index(pre.delegators, delegator_id, validator_id);
            if di < 0 {
                Err(AnchorError::DelegatorNotFound)
            } else {
                let vi = validator_index(pre.validators, validator_id);
                if vi < 0 {
                    Err(AnchorError::ValidatorNotFound)
                } else {
                    let del = pre.delegators[di];
                    let val = pre.validators[vi];
                    if amount > del.deposit_amount || amount > val.total_stake || amount
                        > pre.total_stake {
                        Err(AnchorError::AmountExceedsBalance)
                    } else {
                        Ok(ValidatorSetView {
                            era_number: pre.era_number,
                            validators: pre.validators.update(
                                vi,
                                Validator {
                                    total_stake: (val.total_stake - amount) as Balance,
                                    ..val
                                },
                            ),
                            delegators: pre.delegators.update(
                                di,
                                Delegator {
                                    deposit_amount: (del.deposit_amount - amount) as Balance,
                                    ..del
                                },
                            ),
                            v2d: pre.v2d,
                            d2v: pre.d2v,
                            total_stake: (pre.total_stake - amount) as Balance,
                        })
                    }
                }
            }
        },
        StakingFact::DelegatorUnbonded { delegator_id, validator_id, amount: _ } => {
            let di = delegator_index(pre.delegators, delegator_id, validator_id);
            if di < 0 {
                Err(AnchorError::DelegatorNotFound)
            } else {
                let vi = validator_index(pre.validators, validator_id);
                if vi < 0 {
                    Err(AnchorError::ValidatorNotFound)
                } else {
                    let dep = pre.delegators[di].deposit_amount;
                    let val = pre.validators[vi];
                    if dep > val.total_stake || dep > pre.total_stake {
                        Err(AnchorError::AmountExceedsBalance)
                    } else {
                        Ok(ValidatorSetView {
                            era_number: pre.era_number,
                            validators: pre.validators.update(
                                vi,
                                Validator { total_stake: (val.total_stake - dep) as Balance, ..val },
                            ),
                            delegators: pre.delegators.remove(di),
                            v2d: pairs_without(pre.v2d, validator_id, delegator_id),
                            d2v: pairs_without(pre.d2v, delegator_id, validator_id),
                            total_stake: (pre.total_stake - dep) as Balance,
                        })
                    }
                }
            }
        },
    }
}


/// Finds the position of the validator with account `id`.
pub(crate) fn find_validator(validators: &Vec<Validator>, id: AccountId) -> (r: Option<usize>)
    ensures
        (match r {
            Some(i) => {
                &&& i as int == validator_index(validators@, id)
                &&& i < validators@.len()
                &&& validators@[i as int].validator_id == id
            },
            None => validator_index(validators@, id) < 0,
        }),
{
    let mut i: usize = 0;
    while i < validators.len()
        invariant
            i <= validators@.len(),
            forall|j: int| 0 <= j < i ==> (#[trigger] validators@[j]).validator_id != id,
        decreases validators@.len() - i,
    {
        if validators[i].validator_id == id {
            proof {
                lemma_validator_index_unique(validators@, id, i as int);
            }
            return Some(i);
        }
        i += 1;
    }
    proof {
        lemma_validator_index(validators@, id);
    }
    None
}

/// Finds the position of the delegation of `d` to `v`.
pub(crate) fn find_delegator(delegators: &Vec<Delegator>, d: AccountId, v: AccountId) -> (r: Option<
    usize,
>)
    ensures
        (match r {
            Some(i) => {
                &&& i as int == delegator_index(delegators@, d, v)
                &&& i < delegators@.len()
                &&& delegators@[i as int].delegator_id == d
                &&& delegators@[i as int].validator_id == v
            },
            None => delegator_index(delegators@, d, v) < 0,
        }),
{
    let mut i: usize = 0;
    while i < delegators.len()
        invariant
            i <= delegators@.len(),
            forall|j: int|
                0 <= j < i ==> !((#[trigger] delegators@[j]).delegator_id == d
                    && delegators@[j].validator_id == v),
        decreases delegators@.len() - i,
    {
        if delegators[i].delegator_id == d && delegators[i].validator_id == v {
            proof {
                lemma_delegator_index_unique(delegators@, d, v, i as int);
            }
            return Some(i);
        }
        i += 1;
    }
    proof {
        lemma_delegator_index(delegators@, d, v);
    }
    None
}

/// Drops every delegation to validator `v`, keeping the rest in order.
fn retain_delegators_without(delegators: &mut Vec<Delegator>, v: AccountId)
    ensures
        final(delegators)@ == delegators_without_validator(old(delegators)@, v),
{
    let ghost s0: Seq<Delegator> = delegators@;
    let mut kept: Vec<Delegator> = Vec::new();
    let mut i: usize = 0;
    while i < delegators.len()
        invariant
            i <= s0.len(),
            delegators@ == s0,
            kept@ == delegators_without_validator(s0.subrange(0, i as int), v),
        decreases s0.len() - i,
    {
        let d = delegators[i];
        proof {
            let sub1 = s0.subrange(0, i as int + 1);
            assert(sub1.drop_last() =~= s0.subrange(0, i as int));
            assert(sub1.last() == d);
        }
        if d.validator_id != v {
            kept.push(d);
        }
        i += 1;
    }
    proof {
        assert(s0.subrange(0, s0.len() as int) =~= s0);
    }
    *delegators = kept;
}

/// Drops every index pair whose first component is `a`.
fn retain_pairs_without_left(pairs: &mut Vec<(AccountId, AccountId)>, a: AccountId)
    ensures
        final(pairs)@ == pairs_without_left(old(pairs)@, a),
{
    let ghost s0: Seq<(AccountId, AccountId)> = pairs@;
    let mut kept: Vec<(AccountId, AccountId)> = Vec::new();
    let mut i: usize = 0;
    while i < pairs.len()
        invariant
            i <= s0.len(),
            pairs@ == s0,
            kept@ == pairs_without_left(s0.subrange(0, i as int), a),
        decreases s0.len() - i,
    {
        let p = pairs[i];
        proof {
            let sub1 = s0.subrange(0, i as int + 1);
            assert(sub1.drop_last() =~= s0.subrange(0, i as int));
            assert(sub1.last() == p);
        }
        if p.0 != a {
            kept.push(p);
        }
        i += 1;
    }
    proof {
        assert(s0.subrange(0, s0.len() as int) =~= s0);
    }
    *pairs = kept;
}

/// Drops every index pair whose second component is `b`.
fn retain_pairs_without_right(pairs: &mut Vec<(AccountId, AccountId)>, b: AccountId)
    ensures
        final(pairs)@ == pairs_without_right(old(pairs)@, b),
{
    let ghost s0: Seq<(AccountId, AccountId)> = pairs@;
    let mut kept: Vec<(AccountId, AccountId)> = Vec::new();
    let mut i: usize = 0;
    while i < pairs.len()
        invariant
            i <= s0.len(),
            pairs@ == s0,
            kept@ == pairs_without_right(s0.subrange(0, i as int), b),
        decreases s0.len() - i,
    {
        let p = pairs[i];
        proof {
            let sub1 = s0.subrange(0, i as int + 1);
            assert(sub1.drop_last() =~= s0.subrange(0, i as int));
            assert(sub1.last() == p);
        }
        if p.1 != b {
            kept.push(p);
        }
        i += 1;
    }
    proof {
        assert(s0.subrange(0, s0.len() as int) =~= s0);
    }
    *pairs = kept;
}

/// Drops every occurrence of the index pair `(a, b)`.
fn retain_pairs_without(pairs: &mut Vec<(AccountId, AccountId)>, a: AccountId, b: AccountId)
    ensures
        final(pairs)@ == pairs_without(old(pairs)@, a, b),
{
    let ghost s0: Seq<(AccountId, AccountId)> = pairs@;
    let mut kept: Vec<(AccountId, AccountId)> = Vec::new();
    let mut i: usize = 0;
    while i < pairs.len()
        invariant
            i <= s0.len(),
            pairs@ == s0,
            kept@ == pairs_without(s0.subrange(0, i as int), a, b),
        decreases s0.len() - i,
    {
        let p = pairs[i];
        proof {
            let sub1 = s0.subrange(0, i as int + 1);
            assert(sub1.drop_last() =~= s0.subrange(0, i as int));
            assert(sub1.last() == p);
        }
        if !(p.0 == a && p.1 == b) {
            kept.push(p);
        }
        i += 1;
    }
    proof {
        assert(s0.subrange(0, s0.len() as int) =~= s0);
    }
    *pairs = kept;
}

/// Counts the index pairs whose first component is `a`.
pub(crate) fn count_pairs_left(pairs: &Vec<(AccountId, AccountId)>, a: AccountId) -> (n: u64)
    ensures
        n == count_pairs_with_left(pairs@, a),
{
    let ghost s0: Seq<(AccountId, AccountId)> = pairs@;
    let mut n: u64 = 0;
    let mut i: usize = 0;
    while i < pairs.len()
        invariant
            i <= s0.len(),
            pairs@ == s0,
            n <= i,
            n == count_pairs_with_left(s0.subrange(0, i as int), a),
        decreases s0.len() - i,
    {
        let p = pairs[i];
        proof {
            let sub1 = s0.subrange(0, i as int + 1);
            assert(sub1.drop_last() =~= s0.subrange(0, i as int));
            assert(sub1.last() == p);
        }
        if p.0 == a {
            n += 1;
        }
        i += 1;
    }
    proof {
        assert(s0.subrange(0, s0.len() as int) =~= s0);
    }
    n
}

impl ValidatorSet {
    /// An empty snapshot for era `era_number`.
    pub fn new(era_number: u64) -> (r: Self)
        ensures
            r@ == (ValidatorSetView {
                era_number,
                validators: Seq::<Validator>::empty(),
                delegators: Seq::<Delegator>::empty(),
                v2d: Seq::<(AccountId, AccountId)>::empty(),
                d2v: Seq::<(AccountId, AccountId)>::empty(),
                total_stake: 0u128,
            }),
    {
        let r = ValidatorSet {
            era_number,
            validators: Vec::new(),
            delegators: Vec::new(),
            validator_to_delegator_index: Vec::new(),
            delegator_to_validator_index: Vec::new(),
            total_stake: 0,
        };
        proof {
            assert(r@ =~= (ValidatorSetView {
                era_number,
                validators: Seq::<Validator>::empty(),
                delegators: Seq::<Delegator>::empty(),
                v2d: Seq::<(AccountId, AccountId)>::empty(),
                d2v: Seq::<(AccountId, AccountId)>::empty(),
                total_stake: 0u128,
            }));
        }
        r
    }

    /// Folds one recorded staking fact into the snapshot, exactly as
    /// [`spec_apply_staking_fact`] says; a rejected fact leaves the
    /// snapshot untouched.
    pub fn apply_staking_history(&mut self, staking_history: &StakingHistory) -> (r: Result<
        (),
        AnchorError,
    >)
        ensures
            (match spec_apply_staking_fact(
                old(self)@,
                staking_history.staking_fact,
                staking_history.block_height,
                staking_history.timestamp,
            ) {
                Ok(m) => r is Ok && final(self)@ == m,
                Err(e) => r == Err::<(), AnchorError>(e) && final(self)@ == old(self)@,
            }),
    {
        let ghost pre = self@;
        proof {
            assert(pre.validators == self.validators@);
            assert(pre.delegators == self.delegators@);
            assert(pre.v2d == self.validator_to_delegator_index@);
            assert(pre.d2v == self.delegator_to_validator_index@);
            assert(pre.total_stake == self.total_stake);
        }
        let block_height = staking_history.block_height;
        let timestamp = staking_history.timestamp;
        match staking_history.staking_fact {
            StakingFact::ValidatorRegistered {
                validator_id,
                validator_id_in_appchain,
                amount,
                can_be_delegated_to,
            } => {
                if find_validator(&self.validators, validator_id).is_some() {
                    Err(AnchorError::ValidatorAlreadyRegistered)
                } else if amount > u128::MAX - self.total_stake {
                    Err(AnchorError::ArithmeticOverflow)
                } else {
                    self.validators.push(
                        Validator {
                            validator_id,
                            validator_id_in_appchain,
                            registered_block_height: block_height,
                            registered_timestamp: timestamp,
                            deposit_amount: amount,
                            total_stake: amount,
                            can_be_delegated_to,
                        },
                    );
                    self.total_stake = self.total_stake + amount;
                    Ok(())
                }
            },
            StakingFact::StakeIncreased { validator_id, amount } => {
                let found_v = find_validator(&self.validators, validator_id);
                match found_v {
                    None => Err(AnchorError::ValidatorNotFound),
                    Some(i) => {
                        let val = self.validators[i];
                        if amount > u128::MAX - val.deposit_amount || amount > u128::MAX
                            - val.total_stake || amount > u128::MAX - self.total_stake {
                            Err(AnchorError::ArithmeticOverflow)
                        } else {
                            self.validators[i] = Validator {
                                validator_id: val.validator_id,
                                validator_id_in_appchain: val.validator_id_in_appchain,
                                registered_block_height: val.registered_block_height,
                                registered_timestamp: val.registered_timestamp,
                                deposit_amount: val.deposit_amount + amount,
                                total_stake: val.total_stake + amount,
                                can_be_delegated_to: val.can_be_delegated_to,
                            };
                            self.total_stake = self.total_stake + amount;
                            Ok(())
                        }
                    },
                }
            },
            StakingFact::StakeDecreased { validator_id, amount } => {
                let found_v = find_validator(&self.validators, validator_id);
                match found_v {
                    None => Err(AnchorError::ValidatorNotFound),
                    Some(i) => {
                        let val = self.validators[i];
                        if amount > val.deposit_amount || amount > val.total_stake || amount
                            > self.total_stake {
                            Err(AnchorError::AmountExceedsBalance)
                        } else {
                            self.validators[i] = Validator {
                                deposit_amount: val.deposit_amount - amount,
                                total_stake: val.total_stake - amount,
                                ..val
                            };
                            self.total_stake = self.total_stake - amount;
                            Ok(())
                        }
                    },
                }
            },
            StakingFact::ValidatorUnbonded { validator_id, amount: _ } => {
                let found_v = find_validator(&self.validators, validator_id);
                match found_v {
                    None => Err(AnchorError::ValidatorNotFound),
                    Some(i) => {
                        let val = self.validators[i];
                        if val.total_stake > self.total_stake {
                            Err(AnchorError::AmountExceedsBalance)
                        } else {
                            self.validators.remove(i);
                            retain_delegators_without(&mut self.delegators, validator_id);
                            retain_pairs_without_left(
                                &mut self.validator_to_delegator_index,
                                validator_id,
                            );
                            retain_pairs_without_right(
                                &mut self.delegator_to_validator_index,
                                validator_id,
                            );
                            self.total_stake = self.total_stake - val.total_stake;
                            Ok(())
                        }
                    },
                }
            },
            StakingFact::ValidatorDelegationEnabled { validator_id } => {
                let found_v = find_validator(&self.validators, validator_id);
                match found_v {
                    None => Err(AnchorError::ValidatorNotFound),
                    Some(i) => {
                        let val = self.validators[i];
                        self.validators[i] = Validator { can_be_delegated_to: true, ..val };
                        Ok(())
                    },
                }
            },
            StakingFact::ValidatorDelegationDisabled { validator_id } => {
                let found_v = find_validator(&self.validators, validator_id);
                match found_v {
                    None => Err(AnchorError::ValidatorNotFound),
                    Some(i) => {
                        let val = self.validators[i];
                        self.validators[i] = Validator { can_be_delegated_to: false, ..val };
                        Ok(())
                    },
                }
            },
            StakingFact::DelegatorRegistered { delegator_id, validator_id, amount } => {
                if find_delegator(&self.delegators, delegator_id, validator_id).is_some() {
                    Err(AnchorError::DelegatorAlreadyRegistered)
                } else {
                    let found_v = find_validator(&self.validators, validator_id);
                match found_v {
                        None => Err(AnchorError::ValidatorNotFound),
                        Some(vi) => {
                            let val = self.validators[vi];
                            if amount > u128::MAX - val.total_stake || amount > u128::MAX
                                - self.total_stake {
                                Err(AnchorError::ArithmeticOverflow)
                            } else {
                                self.validators[vi] = Validator {
                                    total_stake: val.total_stake + amount,
                                    ..val
                                };
                                self.delegators.push(
                                    Delegator {
                                        delegator_id,
                                        validator_id,
                                        registered_block_height: block_height,
                                        registered_timestamp: timestamp,
                                        deposit_amount: amount,
                                    },
                                );
                                self.validator_to_delegator_index.push(
                                    (validator_id, delegator_id),
                                );
                                self.delegator_to_validator_index.push(
                                    (delegator_id, validator_id),
                                );
                                self.total_stake = self.total_stake + amount;
                                Ok(())
                            }
                        },
                    }
                }
            },
            StakingFact::DelegationIncreased { delegator_id, validator_id, amount } => {
                let found_d = find_delegator(&self.delegators, delegator_id, validator_id);
                match found_d {
                    None => Err(AnchorError::DelegatorNotFound),
                    Some(di) => {
                        let found_v = find_validator(&self.validators, validator_id);
                match found_v {
                            None => Err(AnchorError::ValidatorNotFound),
                            Some(vi) => {
                                let del = self.delegators[di];
                                let val = self.validators[vi];
                                if amount > u128::MAX - del.deposit_amount || amount > u128::MAX
                                    - val.total_stake || amount > u128::MAX - self.total_stake {
                                    Err(AnchorError::ArithmeticOverflow)
                                } else {
                                    self.validators[vi] = Validator {
                                        total_stake: val.total_stake + amount,
                                        ..val
                                    };
                                    self.delegators[di] = Delegator {
                                        deposit_amount: del.deposit_amount + amount,
                                        ..del
                                    };
                                    self.total_stake = self.total_stake + amount;
                                    Ok(())
                                }
                            },
                        }
                    },
                }
            },
            StakingFact::DelegationDecreased { delegator_id, validator_id, amount } => {
                let found_d = find_delegator(&self.delegators, delegator_id, validator_id);
                match found_d {
                    None => Err(AnchorError::DelegatorNotFound),
                    Some(di) => {
                        let found_v = find_validator(&self.validators, validator_id);
                match found_v {
                            None => Err(AnchorError::ValidatorNotFound),
                            Some(vi) => {
                                let del = self.delegators[di];
                                let val = self.validators[vi];
                                if amount > del.deposit_amount || amount > val.total_stake
                                    || amount > self.total_stake {
                                    Err(AnchorError::AmountExceedsBalance)
                                } else {
                                    self.validators[vi] = Validator {
                                        total_stake: val.total_stake - amount,
                                        ..val
                                    };
                                    self.delegators[di] = Delegator {
                                        deposit_amount: del.deposit_amount - amount,
                                        ..del
                                    };
                                    self.total_stake = self.total_stake - amount;
                                    Ok(())
                                }
                            },
                        }
                    },
                }
            },
            StakingFact::DelegatorUnbonded { delegator_id, validator_id, amount: _ } => {
                let found_d = find_delegator(&self.delegators, delegator_id, validator_id);
                match found_d {
                    None => Err(AnchorError::DelegatorNotFound),
                    Some(di) => {
                        let found_v = find_validator(&self.validators, validator_id);
                match found_v {
                            None => Err(AnchorError::ValidatorNotFound),
                            Some(vi) => {
                                let dep = self.delegators[di].deposit_amount;
                                let val = self.validators[vi];
                                if dep > val.total_stake || dep > self.total_stake {
                                    Err(AnchorError::AmountExceedsBalance)
                                } else {
                                    self.validators[vi] = Validator {
                                        total_stake: val.total_stake - dep,
                                        ..val
                                    };
                                    self.delegators.remove(di);
                                    retain_pairs_without(
                                        &mut self.validator_to_delegator_index,
                                        validator_id,
                                        delegator_id,
                                    );
                                    retain_pairs_without(
                                        &mut self.delegator_to_validator_index,
                                        delegator_id,
                                        validator_id,
                                    );
                                    self.total_stake = self.total_stake - dep;
                                    Ok(())
                                }
                            },
                        }
                    },
                }
            },
        }
    }
}






/// Appending a fresh validator puts it at the end of the lookup order.
pub proof fn lemma_validator_index_push_new(s: Seq<Validator>, x: Validator)
    requires
        validator_index(s, x.validator_id) < 0,
    ensures
        validator_index(s.push(x), x.validator_id) == s.len(),
{
    lemma_validator_index(s, x.validator_id);
    assert forall|j: int|
        0 <= j < s.len() implies (#[trigger] s.push(x)[j]).validator_id != x.validator_id by {
        assert(s.push(x)[j] == s[j]);
    }
    lemma_validator_index_unique(s.push(x), x.validator_id, s.len() as int);
}

/// Overwriting a position with a record carrying the same account does not
/// move that account in the lookup order.
pub proof fn lemma_validator_index_update_same(s: Seq<Validator>, k: int, x: Validator)
    requires
        0 <= k < s.len(),
        validator_index(s, x.validator_id) == k,
        s[k].validator_id == x.validator_id,
    ensures
        validator_index(s.update(k, x), x.validator_id) == k,
{
    lemma_validator_index(s, x.validator_id);
    assert forall|j: int|
        0 <= j < k implies (#[trigger] s.update(k, x)[j]).validator_id != x.validator_id by {
        assert(s.update(k, x)[j] == s[j]);
    }
    lemma_validator_index_unique(s.update(k, x), x.validator_id, k);
}

/// Registering a validator with deposit `initial` and then increasing its
/// stake by `x` leaves it with `deposit_amount` and `total_stake` both
/// exactly `initial + x`.
pub proof fn lemma_register_then_increase_stake(
    pre: ValidatorSetView,
    validator_id: AccountId,
    validator_id_in_appchain: AccountIdInAppchain,
    initial: Balance,
    x: Balance,
    can_be_delegated_to: bool,
    block_height_1: BlockHeight,
    timestamp_1: Timestamp,
    block_height_2: BlockHeight,
    timestamp_2: Timestamp,
)
    requires
        spec_apply_staking_fact(
            pre,
            StakingFact::ValidatorRegistered {
                validator_id,
                validator_id_in_appchain,
                amount: initial,
                can_be_delegated_to,
            },
            block_height_1,
            timestamp_1,
        ) is Ok,
        spec_apply_staking_fact(
            spec_apply_staking_fact(
                pre,
                StakingFact::ValidatorRegistered {
                    validator_id,
                    validator_id_in_appchain,
                    amount: initial,
                    can_be_delegated_to,
                },
                block_height_1,
                timestamp_1,
            ).unwrap(),
            StakingFact::StakeIncreased { validator_id, amount: x },
            block_height_2,
            timestamp_2,
        ) is Ok,
    ensures
        ({
            let mid = spec_apply_staking_fact(
                pre,
                StakingFact::ValidatorRegistered {
                    validator_id,
                    validator_id_in_appchain,
                    amount: initial,
                    can_be_delegated_to,
                },
                block_height_1,
                timestamp_1,
            ).unwrap();
            let post = spec_apply_staking_fact(
                mid,
                StakingFact::StakeIncreased { validator_id, amount: x },
                block_height_2,
                timestamp_2,
            ).unwrap();
            let vi = validator_index(post.validators, validator_id);
            &&& vi >= 0
            &&& post.validators[vi].deposit_amount == initial + x
            &&& post.validators[vi].total_stake == initial + x
        }),
{
    let mid = spec_apply_staking_fact(
        pre,
        StakingFact::ValidatorRegistered {
            validator_id,
            validator_id_in_appchain,
            amount: initial,
            can_be_delegated_to,
        },
        block_height_1,
        timestamp_1,
    ).unwrap();
    let new_validator = Validator {
        validator_id,
        validator_id_in_appchain,
        registered_block_height: block_height_1,
        registered_timestamp: timestamp_1,
        deposit_amount: initial,
        total_stake: initial,
        can_be_delegated_to,
    };
    let k = pre.validators.len() as int;
    lemma_validator_index_push_new(pre.validators, new_validator);
    assert(validator_index(mid.validators, validator_id) == k);
    let post = spec_apply_staking_fact(
        mid,
        StakingFact::StakeIncreased { validator_id, amount: x },
        block_height_2,
        timestamp_2,
    ).unwrap();
    let increased = Validator {
        deposit_amount: (initial + x) as Balance,
        total_stake: (initial + x) as Balance,
        ..new_validator
    };
    assert(mid.validators[k] == new_validator);
    assert(post.validators == mid.validators.update(k, increased));
    lemma_validator_index_update_same(mid.validators, k, increased);
}

/// Registering a delegation of amount `x` to validator `v` adds exactly
/// `x` to `v`'s total stake and to the set's aggregate, and leaves `v`'s
/// own deposit unchanged.
pub proof fn lemma_delegator_registered_effect(
    pre: ValidatorSetView,
    delegator_id: AccountId,
    validator_id: AccountId,
    amount: Balance,
    block_height: BlockHeight,
    timestamp: Timestamp,
)
    requires
        spec_apply_staking_fact(
            pre,
            StakingFact::DelegatorRegistered { delegator_id, validator_id, amount },
            block_height,
            timestamp,
        ) is Ok,
    ensures
        ({
            let post = spec_apply_staking_fact(
                pre,
                StakingFact::DelegatorRegistered { delegator_id, validator_id, amount },
                block_height,
                timestamp,
            ).unwrap();
            let vi = validator_index(pre.validators, validator_id);
            &&& vi >= 0
            &&& validator_index(post.validators, validator_id) == vi
            &&& post.validators[vi].total_stake == pre.validators[vi].total_stake + amount
            &&& post.validators[vi].deposit_amount == pre.validators[vi].deposit_amount
            &&& post.total_stake == pre.total_stake + amount
        }),
{
    let vi = validator_index(pre.validators, validator_id);
    lemma_validator_index(pre.validators, validator_id);
    let val = pre.validators[vi];
    let updated = Validator { total_stake: (val.total_stake + amount) as Balance, ..val };
    lemma_validator_index_update_same(pre.validators, vi, updated);
}

/// Unbonding a validator removes its record, removes every delegation to
/// it from the delegation table and from both cross-index lists, keeps
/// every other delegation, and decreases the set's aggregate total stake
/// by exactly the validator's pre-removal total stake.
pub proof fn lemma_validator_unbonded_cascades(
    pre: ValidatorSetView,
    validator_id: AccountId,
    amount: Balance,
    block_height: BlockHeight,
    timestamp: Timestamp,
)
    requires
        forall|i: int, j: int|
            0 <= i < j < pre.validators.len() ==> (#[trigger] pre.validators[i]).validator_id != (
            #[trigger] pre.validators[j]).validator_id,
        spec_apply_staking_fact(
            pre,
            StakingFact::ValidatorUnbonded { validator_id, amount },
            block_height,
            timestamp,
        ) is Ok,
    ensures
        ({
            let post = spec_apply_staking_fact(
                pre,
                StakingFact::ValidatorUnbonded { validator_id, amount },
                block_height,
                timestamp,
            ).unwrap();
            let vi = validator_index(pre.validators, validator_id);
            &&& vi >= 0
            &&& validator_index(post.validators, validator_id) < 0
            &&& forall|i: int|
                0 <= i < post.delegators.len() ==> (#[trigger] post.delegators[i]).validator_id
                    != validator_id
            &&& forall|i: int|
                0 <= i < post.v2d.len() ==> (#[trigger] post.v2d[i]).0 != validator_id
            &&& forall|i: int|
                0 <= i < post.d2v.len() ==> (#[trigger] post.d2v[i]).1 != validator_id
            &&& forall|i: int|
                0 <= i < pre.delegators.len() && (#[trigger] pre.delegators[i]).validator_id
                    != validator_id ==> post.delegators.contains(pre.delegators[i])
            &&& post.total_stake == pre.total_stake - pre.validators[vi].total_stake
        }),
{
    let post = spec_apply_staking_fact(
        pre,
        StakingFact::ValidatorUnbonded { validator_id, amount },
        block_height,
        timestamp,
    ).unwrap();
    let vi = validator_index(pre.validators, validator_id);
    lemma_validator_index(pre.validators, validator_id);
    lemma_delegators_without_validator(pre.delegators, validator_id);
    lemma_pairs_without_left(pre.v2d, validator_id);
    lemma_pairs_without_right(pre.d2v, validator_id);
    lemma_validator_index(post.validators, validator_id);
    if validator_index(post.validators, validator_id) >= 0 {
        let k = validator_index(post.validators, validator_id);
        assert(post.validators[k].validator_id == validator_id);
        if k < vi {
            assert(post.validators[k] == pre.validators[k]);
        } else {
            assert(post.validators[k] == pre.validators[k + 1]);
        }
    }
}


/// Validator accounts are distinct across the table.
pub open spec fn distinct_validator_accounts(s: Seq<Validator>) -> bool {
    forall|i: int, j: int|
        0 <= i < j < s.len() ==> (#[trigger] s[i]).validator_id != (#[trigger] s[j]).validator_id
}

/// The two cross-index lists are mutual inverses: the forward index holds
/// `(validator, delegator)` exactly when the inverse index holds
/// `(delegator, validator)`.
pub open spec fn cross_indexes_mirrored(m: ValidatorSetView) -> bool {
    forall|v: AccountId, d: AccountId|
        #[trigger] m.v2d.contains((v, d)) <==> #[trigger] m.d2v.contains((d, v))
}

/// Every transition preserves the snapshot's structural invariants:
/// validator accounts stay distinct, and the two cross-index lists stay
/// mutual inverses — every insert and removal touches both sides in the
/// same step.
pub proof fn lemma_apply_preserves_invariants(
    pre: ValidatorSetView,
    fact: StakingFact,
    block_height: BlockHeight,
    timestamp: Timestamp,
)
    requires
        distinct_validator_accounts(pre.validators),
        cross_indexes_mirrored(pre),
        spec_apply_staking_fact(pre, fact, block_height, timestamp) is Ok,
    ensures
        distinct_validator_accounts(
            spec_apply_staking_fact(pre, fact, block_height, timestamp).unwrap().validators,
        ),
        cross_indexes_mirrored(spec_apply_staking_fact(pre, fact, block_height, timestamp).unwrap()),
{
    let post = spec_apply_staking_fact(pre, fact, block_height, timestamp).unwrap();
    match fact {
        StakingFact::ValidatorRegistered {
            validator_id,
            validator_id_in_appchain: _,
            amount: _,
            can_be_delegated_to: _,
        } => {
            lemma_validator_index(pre.validators, validator_id);
            assert forall|i: int, j: int|
                0 <= i < j < post.validators.len() implies (
            #[trigger] post.validators[i]).validator_id != (
            #[trigger] post.validators[j]).validator_id by {
                if j < pre.validators.len() {
                } else {
                    assert(post.validators[j] == post.validators.last());
                }
            }
            assert(distinct_validator_accounts(post.validators));
            assert(post.v2d == pre.v2d);
            assert(post.d2v == pre.d2v);
            assert forall|v: AccountId, d: AccountId|
                #[trigger] post.v2d.contains((v, d)) <==> #[trigger] post.d2v.contains(
                (d, v),
            ) by {
                assert(pre.v2d.contains((v, d)) <==> pre.d2v.contains((d, v)));
            }
        },
        StakingFact::ValidatorUnbonded { validator_id, amount: _ } => {
            let vi = validator_index(pre.validators, validator_id);
            lemma_validator_index(pre.validators, validator_id);
            assert forall|i: int, j: int|
                0 <= i < j < post.validators.len() implies (
            #[trigger] post.validators[i]).validator_id != (
            #[trigger] post.validators[j]).validator_id by {
                let i0 = if i < vi {
                    i
                } else {
                    i + 1
                };
                let j0 = if j < vi {
                    j
                } else {
                    j + 1
                };
                assert(post.validators[i] == pre.validators[i0]);
                assert(post.validators[j] == pre.validators[j0]);
            }
            assert(distinct_validator_accounts(post.validators));
            lemma_pairs_without_left(pre.v2d, validator_id);
            lemma_pairs_without_right(pre.d2v, validator_id);
            assert forall|v: AccountId, d: AccountId|
                #[trigger] post.v2d.contains((v, d)) <==> #[trigger] post.d2v.contains(
                (d, v),
            ) by {
                if post.v2d.contains((v, d)) {
                    let i = choose|i: int| 0 <= i < post.v2d.len() && post.v2d[i] == (v, d);
                    assert(pre.v2d.contains((v, d)) && v != validator_id);
                    assert(pre.d2v.contains((d, v)));
                    let k = choose|k: int| 0 <= k < pre.d2v.len() && pre.d2v[k] == (d, v);
                    assert(post.d2v.contains(pre.d2v[k]));
                }
                if post.d2v.contains((d, v)) {
                    let i = choose|i: int| 0 <= i < post.d2v.len() && post.d2v[i] == (d, v);
                    assert(pre.d2v.contains((d, v)) && v != validator_id);
                    assert(pre.v2d.contains((v, d)));
                    let k = choose|k: int| 0 <= k < pre.v2d.len() && pre.v2d[k] == (v, d);
                    assert(post.v2d.contains(pre.v2d[k]));
                }
            }
        },
        StakingFact::DelegatorRegistered { delegator_id, validator_id, amount: _ } => {
            lemma_validator_index(pre.validators, validator_id);
            assert(post.validators.len() == pre.validators.len());
            assert(forall|k: int|
                0 <= k < post.validators.len() ==> (#[trigger] post.validators[k]).validator_id
                    == pre.validators[k].validator_id);
            assert forall|i: int, j: int|
                0 <= i < j < post.validators.len() implies (
            #[trigger] post.validators[i]).validator_id != (
            #[trigger] post.validators[j]).validator_id by {
                assert(pre.validators[i].validator_id != pre.validators[j].validator_id);
            }
            assert(distinct_validator_accounts(post.validators));
            assert forall|v: AccountId, d: AccountId|
                #[trigger] post.v2d.contains((v, d)) <==> #[trigger] post.d2v.contains(
                (d, v),
            ) by {
                if post.v2d.contains((v, d)) {
                    let i = choose|i: int| 0 <= i < post.v2d.len() && post.v2d[i] == (v, d);
                    if i < pre.v2d.len() {
                        assert(pre.v2d[i] == (v, d));
                        assert(pre.v2d.contains((v, d)));
                        assert(pre.d2v.contains((d, v)));
                        let k = choose|k: int| 0 <= k < pre.d2v.len() && pre.d2v[k] == (d, v);
                        assert(post.d2v[k] == (d, v));
                    } else {
                        assert(post.d2v[post.d2v.len() - 1] == (d, v));
                    }
                }
                if post.d2v.contains((d, v)) {
                    let i = choose|i: int| 0 <= i < post.d2v.len() && post.d2v[i] == (d, v);
                    if i < pre.d2v.len() {
                        assert(pre.d2v[i] == (d, v));
                        assert(pre.d2v.contains((d, v)));
                        assert(pre.v2d.contains((v, d)));
                        let k = choose|k: int| 0 <= k < pre.v2d.len() && pre.v2d[k] == (v, d);
                        assert(post.v2d[k] == (v, d));
                    } else {
                        assert(post.v2d[post.v2d.len() - 1] == (v, d));
                    }
                }
            }
        },
        StakingFact::DelegatorUnbonded { delegator_id, validator_id, amount: _ } => {
            lemma_validator_index(pre.validators, validator_id);
            assert(post.validators.len() == pre.validators.len());
            assert(forall|k: int|
                0 <= k < post.validators.len() ==> (#[trigger] post.validators[k]).validator_id
                    == pre.validators[k].validator_id);
            assert forall|i: int, j: int|
                0 <= i < j < post.validators.len() implies (
            #[trigger] post.validators[i]).validator_id != (
            #[trigger] post.validators[j]).validator_id by {
                assert(pre.validators[i].validator_id != pre.validators[j].validator_id);
            }
            assert(distinct_validator_accounts(post.validators));
            lemma_pairs_without(pre.v2d, validator_id, delegator_id);
            lemma_pairs_without(pre.d2v, delegator_id, validator_id);
            assert forall|v: AccountId, d: AccountId|
                #[trigger] post.v2d.contains((v, d)) <==> #[trigger] post.d2v.contains(
                (d, v),
            ) by {
                if post.v2d.contains((v, d)) {
                    let i = choose|i: int| 0 <= i < post.v2d.len() && post.v2d[i] == (v, d);
                    assert(pre.v2d.contains((v, d)) && (v, d) != (validator_id, delegator_id));
                    assert(pre.d2v.contains((d, v)));
                    let k = choose|k: int| 0 <= k < pre.d2v.len() && pre.d2v[k] == (d, v);
                    assert(pre.d2v[k] != (delegator_id, validator_id));
                    assert(post.d2v.contains(pre.d2v[k]));
                }
                if post.d2v.contains((d, v)) {
                    let i = choose|i: int| 0 <= i < post.d2v.len() && post.d2v[i] == (d, v);
                    assert(pre.d2v.contains((d, v)) && (d, v) != (delegator_id, validator_id));
                    assert(pre.v2d.contains((v, d)));
                    let k = choose|k: int| 0 <= k < pre.v2d.len() && pre.v2d[k] == (v, d);
                    assert(pre.v2d[k] != (validator_id, delegator_id));
                    assert(post.v2d.contains(pre.v2d[k]));
                }
            }
        },
        StakingFact::StakeIncreased { validator_id, amount: _ } => {
            lemma_validator_index(pre.validators, validator_id);
            assert(post.validators.len() == pre.validators.len());
            assert(forall|k: int|
                0 <= k < post.validators.len() ==> (#[trigger] post.validators[k]).validator_id
                    == pre.validators[k].validator_id);
            assert forall|i: int, j: int|
                0 <= i < j < post.validators.len() implies (
            #[trigger] post.validators[i]).validator_id != (
            #[trigger] post.validators[j]).validator_id by {
                assert(pre.validators[i].validator_id != pre.validators[j].validator_id);
            }
            assert(distinct_validator_accounts(post.validators));
            assert(post.v2d == pre.v2d);
            assert(post.d2v == pre.d2v);
            assert forall|v: AccountId, d: AccountId|
                #[trigger] post.v2d.contains((v, d)) <==> #[trigger] post.d2v.contains(
                (d, v),
            ) by {
                assert(pre.v2d.contains((v, d)) <==> pre.d2v.contains((d, v)));
            }
        },
        StakingFact::StakeDecreased { validator_id, amount: _ } => {
            lemma_validator_index(pre.validators, validator_id);
            assert(post.validators.len() == pre.validators.len());
            assert(forall|k: int|
                0 <= k < post.validators.len() ==> (#[trigger] post.validators[k]).validator_id
                    == pre.validators[k].validator_id);
            assert forall|i: int, j: int|
                0 <= i < j < post.validators.len() implies (
            #[trigger] post.validators[i]).validator_id != (
            #[trigger] post.validators[j]).validator_id by {
                assert(pre.validators[i].validator_id != pre.validators[j].validator_id);
            }
            assert(distinct_validator_accounts(post.validators));
            assert(post.v2d == pre.v2d);
            assert(post.d2v == pre.d2v);
            assert forall|v: AccountId, d: AccountId|
                #[trigger] post.v2d.contains((v, d)) <==> #[trigger] post.d2v.contains(
                (d, v),
            ) by {
                assert(pre.v2d.contains((v, d)) <==> pre.d2v.contains((d, v)));
            }
        },
        StakingFact::ValidatorDelegationEnabled { validator_id } => {
            lemma_validator_index(pre.validators, validator_id);
            assert(post.validators.len() == pre.validators.len());
            assert(forall|k: int|
                0 <= k < post.validators.len() ==> (#[trigger] post.validators[k]).validator_id
                    == pre.validators[k].validator_id);
            assert forall|i: int, j: int|
                0 <= i < j < post.validators.len() implies (
            #[trigger] post.validators[i]).validator_id != (
            #[trigger] post.validators[j]).validator_id by {
                assert(pre.validators[i].validator_id != pre.validators[j].validator_id);
            }
            assert(distinct_validator_accounts(post.validators));
            assert(post.v2d == pre.v2d);
            assert(post.d2v == pre.d2v);
            assert forall|v: AccountId, d: AccountId|
                #[trigger] post.v2d.contains((v, d)) <==> #[trigger] post.d2v.contains(
                (d, v),
            ) by {
                assert(pre.v2d.contains((v, d)) <==> pre.d2v.contains((d, v)));
            }
        },
        StakingFact::ValidatorDelegationDisabled { validator_id } => {
            lemma_validator_index(pre.validators, validator_id);
            assert(post.validators.len() == pre.validators.len());
            assert(forall|k: int|
                0 <= k < post.validators.len() ==> (#[trigger] post.validators[k]).validator_id
                    == pre.validators[k].validator_id);
            assert forall|i: int, j: int|
                0 <= i < j < post.validators.len() implies (
            #[trigger] post.validators[i]).validator_id != (
            #[trigger] post.validators[j]).validator_id by {
                assert(pre.validators[i].validator_id != pre.validators[j].validator_id);
            }
            assert(distinct_validator_accounts(post.validators));
            assert(post.v2d == pre.v2d);
            assert(post.d2v == pre.d2v);
            assert forall|v: AccountId, d: AccountId|
                #[trigger] post.v2d.contains((v, d)) <==> #[trigger] post.d2v.contains(
                (d, v),
            ) by {
                assert(pre.v2d.contains((v, d)) <==> pre.d2v.contains((d, v)));
            }
        },
        StakingFact::DelegationIncreased { delegator_id: _, validator_id, amount: _ } => {
            lemma_validator_index(pre.validators, validator_id);
            assert(post.validators.len() == pre.validators.len());
            assert(forall|k: int|
                0 <= k < post.validators.len() ==> (#[trigger] post.validators[k]).validator_id
                    == pre.validators[k].validator_id);
            assert forall|i: int, j: int|
                0 <= i < j < post.validators.len() implies (
            #[trigger] post.validators[i]).validator_id != (
            #[trigger] post.validators[j]).validator_id by {
                assert(pre.validators[i].validator_id != pre.validators[j].validator_id);
            }
            assert(distinct_validator_accounts(post.validators));
            assert(post.v2d == pre.v2d);
            assert(post.d2v == pre.d2v);
            assert forall|v: AccountId, d: AccountId|
                #[trigger] post.v2d.contains((v, d)) <==> #[trigger] post.d2v.contains(
                (d, v),
            ) by {
                assert(pre.v2d.contains((v, d)) <==> pre.d2v.contains((d, v)));
            }
        },
        StakingFact::DelegationDecreased { delegator_id: _, validator_id, amount: _ } => {
            lemma_validator_index(pre.validators, validator_id);
            assert(post.validators.len() == pre.validators.len());
            assert(forall|k: int|
                0 <= k < post.validators.len() ==> (#[trigger] post.validators[k]).validator_id
                    == pre.validators[k].validator_id);
            assert forall|i: int, j: int|
                0 <= i < j < post.validators.len() implies (
            #[trigger] post.validators[i]).validator_id != (
            #[trigger] post.validators[j]).validator_id by {
                assert(pre.validators[i].validator_id != pre.validators[j].validator_id);
            }
            assert(distinct_validator_accounts(post.validators));
            assert(post.v2d == pre.v2d);
            assert(post.d2v == pre.d2v);
            assert forall|v: AccountId, d: AccountId|
                #[trigger] post.v2d.contains((v, d)) <==> #[trigger] post.d2v.contains(
                (d, v),
            ) by {
                assert(pre.v2d.contains((v, d)) <==> pre.d2v.contains((d, v)));
            }
        },
    }
}

} // verus!
