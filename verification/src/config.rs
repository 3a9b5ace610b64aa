//! The engine's configuration surface: explicit values constructed once
//! at startup and passed into every component.  No component reads
//! ambient environment state; loading endpoint URLs, keys and the like
//! from the environment happens outside the library, which only sees the
//! resulting plain values.

use vstd::prelude::*;
use crate::addr::Addr;
use crate::types::{ConfigError, Factory};

verus! {

/// Everything the engine is configured with.
#[derive(Debug)]
pub struct EngineConfig {
    /// The base asset every searched cycle starts and ends at.
    pub base_token: Addr,
    /// The upper bound on edges per cycle.
    pub max_hops: usize,
    /// The amount fed into the first hop of every simulation.
    pub probe_amount_in: u128,
    /// The minimum quote-asset value a pool must hold to be tracked.
    pub min_quote_value: u128,
    /// The token whitelist for admission.
    pub whitelist: Vec<Addr>,
    /// The factories whose pools are discovered.
    pub factories: Vec<Factory>,
}

/// The mathematical model of a configuration.
#[verifier::ext_equal]
pub struct ConfigView {
    pub base_token: Addr,
    pub max_hops: usize,
    pub probe_amount_in: u128,
    pub min_quote_value: u128,
    pub whitelist: Seq<Addr>,
    pub factories: Seq<Factory>,
}

impl View for EngineConfig {
    type V = ConfigView;

    open spec fn view(&self) -> ConfigView {
        ConfigView {
            base_token: self.base_token,
            max_hops: self.max_hops,
            probe_amount_in: self.probe_amount_in,
            min_quote_value: self.min_quote_value,
            whitelist: self.whitelist@,
            factories: self.factories@,
        }
    }
}

/// The exact validation verdict, with the conditions tested in this
/// order: a hop bound below two can close no cycle, a zero probe amount
/// exercises nothing, an empty factory list discovers nothing, and a
/// factory fee above one whole unit is malformed.
pub open spec fn spec_validate(c: ConfigView) -> Result<(), ConfigError> {
    if c.max_hops < 2 {
        Err(ConfigError::MaxHopsTooSmall)
    } else if c.probe_amount_in == 0 {
        Err(ConfigError::ZeroProbeAmount)
    } else if c.factories.len() == 0 {
        Err(ConfigError::NoFactories)
    } else if exists|i: int|
        0 <= i < c.factories.len() && (#[trigger] c.factories[i]).default_fee_bp > 10_000 {
        Err(ConfigError::BadFactoryFee)
    } else {
        Ok(())
    }
}

impl EngineConfig {
    /// Checks this configuration, exactly as `spec_validate` says.
    /// An invalid configuration is fatal at construction time: the engine
    /// does not start.
    pub fn validate(&self) -> (r: Result<(), ConfigError>)
        ensures
            r == spec_validate(self@),
    {
        if self.max_hops < 2 {
            return Err(ConfigError::MaxHopsTooSmall);
        }
        if self.probe_amount_in == 0 {
            return Err(ConfigError::ZeroProbeAmount);
        }
        if self.factories.len() == 0 {
            return Err(ConfigError::NoFactories);
        }
        let mut i: usize = 0;
        while i < self.factories.len()
            invariant
                i <= self.factories.len(),
                self@.max_hops >= 2,
                self@.probe_amount_in != 0,
                self@.factories.len() > 0,
                forall|j: int|
                    0 <= j < i ==> (#[trigger] self.factories@[j]).default_fee_bp <= 10_000,
            decreases self.factories.len() - i,
        {
            if self.factories[i].default_fee_bp > 10_000 {
                proof {
                    assert(self@.factories[i as int].default_fee_bp > 10_000);
                }
                return Err(ConfigError::BadFactoryFee);
            }
            i = i + 1;
        }
        Ok(())
    }

    /// Builds and checks a configuration in one step: hands back the
    /// configuration when it validates and the exact verdict otherwise.
    pub fn new(
        base_token: Addr,
        max_hops: usize,
        probe_amount_in: u128,
        min_quote_value: u128,
        whitelist: Vec<Addr>,
        factories: Vec<Factory>,
    ) -> (r: Result<EngineConfig, ConfigError>)
        ensures
            match r {
                Result::Ok(c) => c@ == (ConfigView {
                    base_token,
                    max_hops,
                    probe_amount_in,
                    min_quote_value,
                    whitelist: whitelist@,
                    factories: factories@,
                }) && spec_validate(c@) == Ok::<(), ConfigError>(()),
                Result::Err(e) => spec_validate(
                    ConfigView {
                        base_token,
                        max_hops,
                        probe_amount_in,
                        min_quote_value,
                        whitelist: whitelist@,
                        factories: factories@,
                    },
                ) == Err::<(), ConfigError>(e),
            },
    {
        let c = EngineConfig {
            base_token,
            max_hops,
            probe_amount_in,
            min_quote_value,
            whitelist,
            factories,
        };
        match c.validate() {
            Result::Ok(_) => Ok(c),
            Result::Err(e) => Err(e),
        }
    }
}

} // verus!
