use sleep_utils::{Duration, SleepError, SleepInput};

#[test]
fn no_wait_for_zero_or_negative_numbers() {
    assert_eq!(SleepInput::from(0).planned_wait(), Ok(None));
    assert_eq!(SleepInput::from(-50).planned_wait(), Ok(None));
    assert_eq!(
        SleepInput::from(1).planned_wait(),
        Ok(Some(Duration::from_millis(1)))
    );
}

#[test]
fn should_sleep_per_input() {
    assert!(SleepInput::from(100).should_sleep());
    assert!(!SleepInput::from(0).should_sleep());
    assert!(!SleepInput::from(-50isize).should_sleep());
    assert!(!SleepInput::from("0").should_sleep());
    assert!(!SleepInput::from("-5".to_string()).should_sleep());
    assert!(SleepInput::from("7").should_sleep());
    // Only a text that is an integer as it stands is skipped here.
    assert!(SleepInput::from("0s").should_sleep());
    assert!(SleepInput::from(" 0").should_sleep());
    assert!(!SleepInput::from(Duration::from_millis(0)).should_sleep());
    assert!(SleepInput::from(Duration::new(0, 1)).should_sleep());
}

#[test]
fn to_duration_per_input() {
    assert_eq!(
        SleepInput::from(100).to_duration(),
        Ok(Duration::from_millis(100))
    );
    assert_eq!(
        SleepInput::from(-1).to_duration(),
        Ok(Duration::from_millis(0))
    );
    assert_eq!(
        SleepInput::from("100ms").to_duration(),
        Ok(Duration::from_millis(100))
    );
    assert_eq!(
        SleepInput::from(Duration::new(1, 7)).to_duration(),
        Ok(Duration::new(1, 7))
    );
    assert_eq!(
        SleepInput::from("soon").to_duration(),
        Err(SleepError::InvalidDuration(
            "Invalid sleep duration format: 'soon'".to_string()
        ))
    );
}

#[test]
fn text_zero_with_unit_waits_zero() {
    assert_eq!(
        SleepInput::from("0s").planned_wait(),
        Ok(Some(Duration::from_millis(0)))
    );
    assert!(SleepInput::from("bad").planned_wait().is_err());
}
