use snapshot_decay::policy::{decay_for, ConfigError, Setting};

#[test]
fn period_is_the_divisor() {
    assert!(matches!(decay_for(Setting::Integer(250)), Ok(ref d) if d.divisor() == 250));
    assert!(matches!(decay_for(Setting::Integer(1)), Ok(ref d) if d.divisor() == 1));
    assert!(matches!(decay_for(Setting::Integer(i64::MAX)), Ok(ref d) if d.divisor() == i64::MAX));
}

#[test]
fn missing_period_is_an_error() {
    assert!(matches!(decay_for(Setting::Missing), Err(ConfigError::MissingPeriod)));
}

#[test]
fn period_of_another_type_is_an_error() {
    assert!(matches!(decay_for(Setting::NotInteger), Err(ConfigError::PeriodNotInteger)));
    assert!(matches!(decay_for(Setting::NotATable), Err(ConfigError::NotATable)));
}

#[test]
fn period_must_be_positive() {
    assert!(matches!(decay_for(Setting::Integer(0)), Err(ConfigError::PeriodNotPositive(0))));
    assert!(matches!(decay_for(Setting::Integer(-50)), Err(ConfigError::PeriodNotPositive(-50))));
    assert!(matches!(
        decay_for(Setting::Integer(i64::MIN)),
        Err(ConfigError::PeriodNotPositive(i64::MIN))
    ));
}
