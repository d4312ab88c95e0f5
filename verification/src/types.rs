//! Core domain types: account handles, balances, staking facts and the
//! errors that any mutating operation can report.

use vstd::prelude::*;

verus! {

/// An account registered with the anchor, identified by a numeric handle.
pub type AccountId = u64;

/// An account of the external chain, identified by a numeric handle.
pub type AccountIdInAppchain = u64;

/// A token balance, in the token's smallest denomination.
pub type Balance = u128;

/// A block height of the hosting chain.
pub type BlockHeight = u64;

/// A timestamp, in nanoseconds since the epoch.
pub type Timestamp = u64;

/// Seconds in one day; unlock periods are configured in days.
pub const SECONDS_OF_A_DAY: u64 = 86400;

/// Nanoseconds in one second; timestamps are in nanoseconds.
pub const NANO_SECONDS_MULTIPLE: u64 = 1_000_000_000;

/// The scaling factor of the staking token: one token in its smallest
/// denomination.
pub const OCT_DECIMALS_VALUE: u128 = 1_000_000_000_000_000_000;

/// An immutable record of one stake-affecting action.
#[derive(Clone, Copy, PartialEq, Eq, Structural, Debug)]
pub enum StakingFact {
    /// A new validator joined with an initial deposit.
    ValidatorRegistered {
        validator_id: AccountId,
        validator_id_in_appchain: AccountIdInAppchain,
        amount: Balance,
        can_be_delegated_to: bool,
    },
    /// A validator added to its own deposit.
    StakeIncreased { validator_id: AccountId, amount: Balance },
    /// A validator withdrew part of its own deposit.
    StakeDecreased { validator_id: AccountId, amount: Balance },
    /// A validator exited entirely; `amount` is the deposit it held.
    ValidatorUnbonded { validator_id: AccountId, amount: Balance },
    /// A validator started accepting delegations.
    ValidatorDelegationEnabled { validator_id: AccountId },
    /// A validator stopped accepting delegations.
    ValidatorDelegationDisabled { validator_id: AccountId },
    /// A new delegation of `delegator_id` to `validator_id` was opened.
    DelegatorRegistered {
        delegator_id: AccountId,
        validator_id: AccountId,
        amount: Balance,
    },
    /// A delegator added to an existing delegation.
    DelegationIncreased {
        delegator_id: AccountId,
        validator_id: AccountId,
        amount: Balance,
    },
    /// A delegator withdrew part of an existing delegation.
    DelegationDecreased {
        delegator_id: AccountId,
        validator_id: AccountId,
        amount: Balance,
    },
    /// A delegator closed a delegation entirely; `amount` is the deposit it held.
    DelegatorUnbonded {
        delegator_id: AccountId,
        validator_id: AccountId,
        amount: Balance,
    },
}

/// A staking fact together with the position and the moment at which the
/// ledger recorded it.
#[derive(Clone, Copy, PartialEq, Eq, Structural, Debug)]
pub struct StakingHistory {
    pub staking_fact: StakingFact,
    pub block_height: BlockHeight,
    pub timestamp: Timestamp,
    pub index: u64,
}

/// The first and last valid index of an append-only history.
#[derive(Clone, Copy, PartialEq, Eq, Structural, Debug)]
pub struct IndexRange {
    pub start_index: u64,
    pub end_index: u64,
}

/// Why a mutating operation was rejected. Every rejection leaves all state
/// exactly as it was.
#[derive(Clone, Copy, PartialEq, Eq, Structural, Debug)]
pub enum AnchorError {
    /// The account is already registered as a validator.
    ValidatorAlreadyRegistered,
    /// The external-chain account is already mapped to a validator.
    AppchainAccountAlreadyRegistered,
    /// The account still holds unbonded stake that must be withdrawn first.
    UnbondedStakePending,
    /// The deposit is below the configured minimum.
    DepositTooFew,
    /// The (delegator, validator) pair is already registered.
    DelegatorAlreadyRegistered,
    /// The delegator already delegates to the configured maximum number of
    /// validators.
    TooManyValidatorsDelegated,
    /// The referenced validator does not exist in the snapshot.
    ValidatorNotFound,
    /// The referenced (delegator, validator) pair does not exist.
    DelegatorNotFound,
    /// A decrease exceeds the balance it would be taken from.
    AmountExceedsBalance,
    /// A balance would exceed the largest representable amount.
    ArithmeticOverflow,
    /// A referenced ledger entry or sealed era is absent.
    ReferenceNotFound,
    /// An era was addressed outside the contiguous history.
    EraOutOfRange,
    /// The era is not in the processing phase the operation needs.
    WrongProcessingStatus,
}

} // verus!
