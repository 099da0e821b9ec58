//! The decay rate that a volume's configuration asks for.

use vstd::prelude::*;
use crate::retention::Decay;

verus! {

/// What the configuration holds for one volume.
#[derive(Clone, Copy, Debug, PartialEq, Eq, Structural)]
pub enum Setting {
    /// The volume's entry is not a table of settings.
    NotATable,
    /// The table has no `period`.
    Missing,
    /// The `period` is not a whole number.
    NotInteger,
    /// The `period`.
    Integer(i64),
}

/// Why a volume has no decay rate. No snapshot of such a volume is listed or
/// destroyed.
#[derive(Clone, Copy, Debug, PartialEq, Eq, Structural)]
pub enum ConfigError {
    NotATable,
    MissingPeriod,
    PeriodNotInteger,
    /// The period is zero or negative.
    PeriodNotPositive(i64),
}

/// The decay rate for a volume: its period is the divisor.
pub fn decay_for(setting: Setting) -> (r: Result<Decay, ConfigError>)
    ensures
        match setting {
            Setting::NotATable => r == Err::<Decay, ConfigError>(ConfigError::NotATable),
            Setting::Missing => r == Err::<Decay, ConfigError>(ConfigError::MissingPeriod),
            Setting::NotInteger => r == Err::<Decay, ConfigError>(ConfigError::PeriodNotInteger),
            Setting::Integer(p) => if p > 0 {
                r is Ok && r->Ok_0@ == p
            } else {
                r == Err::<Decay, ConfigError>(ConfigError::PeriodNotPositive(p))
            },
        },
{
    match setting {
        Setting::NotATable => Err(ConfigError::NotATable),
        Setting::Missing => Err(ConfigError::MissingPeriod),
        Setting::NotInteger => Err(ConfigError::PeriodNotInteger),
        Setting::Integer(p) => match Decay::new(p) {
            Some(decay) => Ok(decay),
            None => Err(ConfigError::PeriodNotPositive(p)),
        },
    }
}

} // verus!
