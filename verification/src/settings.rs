//! Protocol settings: the configured floors, limits and periods the
//! staking rules check against. Plain values with no internal invariant.

use vstd::prelude::*;

use crate::anchor::{AppchainAnchor, AppchainAnchorView};
use crate::types::{Balance, OCT_DECIMALS_VALUE};

verus! {

/// The protocol-level settings of the anchor.
#[derive(Clone, Copy, PartialEq, Eq, Structural, Debug)]
pub struct ProtocolSettings {
    /// The least deposit a validator may register with, or decrease to.
    pub minimum_validator_deposit: Balance,
    /// The least deposit a delegator may register with, or decrease to.
    pub minimum_delegator_deposit: Balance,
    /// The least total stake the external chain may boot with.
    pub minimum_total_stake_for_booting: Balance,
    pub maximum_market_value_percent_of_near_fungible_tokens: u16,
    pub maximum_market_value_percent_of_wrapped_appchain_token: u16,
    /// The least number of validators an era may run with.
    pub minimum_validator_count: u64,
    /// How many validators one delegator may delegate to at once.
    pub maximum_validators_per_delegator: u64,
    /// Days before an unbonded validator deposit can be withdrawn.
    pub unlock_period_of_validator_deposit: u64,
    /// Days before an unbonded delegator deposit can be withdrawn.
    pub unlock_period_of_delegator_deposit: u64,
    /// How many recent eras of unwithdrawn reward stay claimable.
    pub maximum_era_count_of_unwithdrawn_reward: u64,
    /// The percent of a delegator's reward retained by its validator.
    pub delegation_fee_percent: u16,
}

impl ProtocolSettings {
    /// The default protocol settings, as a value.
    pub open spec fn spec_default() -> ProtocolSettings {
        ProtocolSettings {
            minimum_validator_deposit: (10_000 * OCT_DECIMALS_VALUE) as Balance,
            minimum_delegator_deposit: (1000 * OCT_DECIMALS_VALUE) as Balance,
            minimum_total_stake_for_booting: (500_000 * OCT_DECIMALS_VALUE) as Balance,
            maximum_market_value_percent_of_near_fungible_tokens: 33,
            maximum_market_value_percent_of_wrapped_appchain_token: 67,
            minimum_validator_count: 13,
            maximum_validators_per_delegator: 16,
            unlock_period_of_validator_deposit: 21,
            unlock_period_of_delegator_deposit: 7,
            maximum_era_count_of_unwithdrawn_reward: 84,
            delegation_fee_percent: 20,
        }
    }
}

impl Default for ProtocolSettings {
    /// The default protocol settings.
    fn default() -> (r: Self)
        ensures
            r == ProtocolSettings::spec_default(),
            r.minimum_validator_deposit == 10_000 * OCT_DECIMALS_VALUE,
            r.minimum_delegator_deposit == 1000 * OCT_DECIMALS_VALUE,
            r.minimum_total_stake_for_booting == 500_000 * OCT_DECIMALS_VALUE,
            r.maximum_market_value_percent_of_near_fungible_tokens == 33,
            r.maximum_market_value_percent_of_wrapped_appchain_token == 67,
            r.minimum_validator_count == 13,
            r.maximum_validators_per_delegator == 16,
            r.unlock_period_of_validator_deposit == 21,
            r.unlock_period_of_delegator_deposit == 7,
            r.maximum_era_count_of_unwithdrawn_reward == 84,
            r.delegation_fee_percent == 20,
    {
        ProtocolSettings {
            minimum_validator_deposit: 10_000 * OCT_DECIMALS_VALUE,
            minimum_delegator_deposit: 1000 * OCT_DECIMALS_VALUE,
            minimum_total_stake_for_booting: 500_000 * OCT_DECIMALS_VALUE,
            maximum_market_value_percent_of_near_fungible_tokens: 33,
            maximum_market_value_percent_of_wrapped_appchain_token: 67,
            minimum_validator_count: 13,
            maximum_validators_per_delegator: 16,
            unlock_period_of_validator_deposit: 21,
            unlock_period_of_delegator_deposit: 7,
            maximum_era_count_of_unwithdrawn_reward: 84,
            delegation_fee_percent: 20,
        }
    }
}


impl AppchainAnchor {
    /// Changes the minimum deposit a validator may register with.
    pub fn change_minimum_validator_deposit(&mut self, value: Balance)
        ensures
            final(self)@ == (AppchainAnchorView {
                protocol_settings: ProtocolSettings {
                    minimum_validator_deposit: value,
                    ..old(self)@.protocol_settings
                },
                ..old(self)@
            }),
    {
        self.protocol_settings.minimum_validator_deposit = value;
        proof {
            assert(self@ =~= (AppchainAnchorView {
                protocol_settings: ProtocolSettings {
                    minimum_validator_deposit: value,
                    ..old(self)@.protocol_settings
                },
                ..old(self)@
            }));
        }
    }

    /// Changes the minimum deposit a delegator may register with.
    pub fn change_minimum_delegator_deposit(&mut self, value: Balance)
        ensures
            final(self)@ == (AppchainAnchorView {
                protocol_settings: ProtocolSettings {
                    minimum_delegator_deposit: value,
                    ..old(self)@.protocol_settings
                },
                ..old(self)@
            }),
    {
        self.protocol_settings.minimum_delegator_deposit = value;
        proof {
            assert(self@ =~= (AppchainAnchorView {
                protocol_settings: ProtocolSettings {
                    minimum_delegator_deposit: value,
                    ..old(self)@.protocol_settings
                },
                ..old(self)@
            }));
        }
    }

    /// Changes the least total stake the external chain may boot with.
    pub fn change_minimum_total_stake_for_booting(&mut self, value: Balance)
        ensures
            final(self)@ == (AppchainAnchorView {
                protocol_settings: ProtocolSettings {
                    minimum_total_stake_for_booting: value,
                    ..old(self)@.protocol_settings
                },
                ..old(self)@
            }),
    {
        self.protocol_settings.minimum_total_stake_for_booting = value;
        proof {
            assert(self@ =~= (AppchainAnchorView {
                protocol_settings: ProtocolSettings {
                    minimum_total_stake_for_booting: value,
                    ..old(self)@.protocol_settings
                },
                ..old(self)@
            }));
        }
    }

    /// Changes how many validators one delegator may delegate to.
    pub fn change_maximum_validators_per_delegator(&mut self, value: u64)
        ensures
            final(self)@ == (AppchainAnchorView {
                protocol_settings: ProtocolSettings {
                    maximum_validators_per_delegator: value,
                    ..old(self)@.protocol_settings
                },
                ..old(self)@
            }),
    {
        self.protocol_settings.maximum_validators_per_delegator = value;
        proof {
            assert(self@ =~= (AppchainAnchorView {
                protocol_settings: ProtocolSettings {
                    maximum_validators_per_delegator: value,
                    ..old(self)@.protocol_settings
                },
                ..old(self)@
            }));
        }
    }

    /// Changes the unlock period, in days, of an unbonded validator
    /// deposit.
    pub fn change_unlock_period_of_validator_deposit(&mut self, value: u64)
        ensures
            final(self)@ == (AppchainAnchorView {
                protocol_settings: ProtocolSettings {
                    unlock_period_of_validator_deposit: value,
                    ..old(self)@.protocol_settings
                },
                ..old(self)@
            }),
    {
        self.protocol_settings.unlock_period_of_validator_deposit = value;
        proof {
            assert(self@ =~= (AppchainAnchorView {
                protocol_settings: ProtocolSettings {
                    unlock_period_of_validator_deposit: value,
                    ..old(self)@.protocol_settings
                },
                ..old(self)@
            }));
        }
    }

    /// Changes the unlock period, in days, of an unbonded delegator
    /// deposit.
    pub fn change_unlock_period_of_delegator_deposit(&mut self, value: u64)
        ensures
            final(self)@ == (AppchainAnchorView {
                protocol_settings: ProtocolSettings {
                    unlock_period_of_delegator_deposit: value,
                    ..old(self)@.protocol_settings
                },
                ..old(self)@
            }),
    {
        self.protocol_settings.unlock_period_of_delegator_deposit = value;
        proof {
            assert(self@ =~= (AppchainAnchorView {
                protocol_settings: ProtocolSettings {
                    unlock_period_of_delegator_deposit: value,
                    ..old(self)@.protocol_settings
                },
                ..old(self)@
            }));
        }
    }

    /// Changes how many recent eras of unwithdrawn reward stay claimable.
    pub fn change_maximum_era_count_of_unwithdrawn_reward(&mut self, value: u64)
        ensures
            final(self)@ == (AppchainAnchorView {
                protocol_settings: ProtocolSettings {
                    maximum_era_count_of_unwithdrawn_reward: value,
                    ..old(self)@.protocol_settings
                },
                ..old(self)@
            }),
    {
        self.protocol_settings.maximum_era_count_of_unwithdrawn_reward = value;
        proof {
            assert(self@ =~= (AppchainAnchorView {
                protocol_settings: ProtocolSettings {
                    maximum_era_count_of_unwithdrawn_reward: value,
                    ..old(self)@.protocol_settings
                },
                ..old(self)@
            }));
        }
    }
}

} // verus!
