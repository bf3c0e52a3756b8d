use sleep_utils::{parse_normalized, parse_sleep_duration, Duration, Result, SleepError};

#[test]
fn test_parse_sleep_duration() -> Result<()> {
    // Single unit tests (existing functionality)
    assert_eq!(parse_sleep_duration("100")?, Duration::from_millis(100));
    assert_eq!(parse_sleep_duration("100ms")?, Duration::from_millis(100));
    assert_eq!(parse_sleep_duration("1s")?, Duration::from_secs(1));
    assert_eq!(parse_sleep_duration("1.5s")?, Duration::from_millis(1500));
    assert_eq!(parse_sleep_duration("0")?, Duration::from_millis(0));

    // Multiple unit tests (new functionality)
    assert_eq!(parse_sleep_duration("1m30s")?, Duration::from_millis(90000));
    assert_eq!(
        parse_sleep_duration("1h2m3s")?,
        Duration::from_millis(3723000)
    );
    assert_eq!(
        parse_sleep_duration("1h 2m 3s")?,
        Duration::from_millis(3723000)
    );
    assert_eq!(
        parse_sleep_duration("2s500ms")?,
        Duration::from_millis(2500)
    );
    assert_eq!(
        parse_sleep_duration("1m30s500ms")?,
        Duration::from_millis(90500)
    );

    Ok(())
}

#[test]
fn test_multiple_units_edge_cases() -> Result<()> {
    // Mixed formats
    assert_eq!(parse_sleep_duration("1m30s")?, Duration::from_secs(90));
    assert_eq!(parse_sleep_duration("1h30m")?, Duration::from_secs(5400));
    assert_eq!(parse_sleep_duration("1h1s")?, Duration::from_secs(3601));

    // With spaces
    assert_eq!(parse_sleep_duration("1h 30m")?, Duration::from_secs(5400));
    assert_eq!(parse_sleep_duration("2m 30s")?, Duration::from_secs(150));

    // Zero values in multi-unit
    assert_eq!(parse_sleep_duration("0h0m0s")?, Duration::from_millis(0));
    assert_eq!(parse_sleep_duration("0s")?, Duration::from_millis(0));
    assert_eq!(parse_sleep_duration("0ms")?, Duration::from_millis(0));

    Ok(())
}

#[test]
fn test_float_numbers_not_matched_as_multi_units() -> Result<()> {
    // Single units with decimal values, not multiple units
    assert_eq!(parse_sleep_duration("1.5s")?, Duration::from_millis(1500));
    assert_eq!(parse_sleep_duration("0.5m")?, Duration::from_millis(30000));
    assert_eq!(parse_sleep_duration("2.5s")?, Duration::from_millis(2500));

    // Multiple units
    assert_eq!(
        parse_sleep_duration("1s500ms")?,
        Duration::from_millis(1500)
    );
    assert_eq!(parse_sleep_duration("1m30s")?, Duration::from_millis(90000));

    Ok(())
}

#[test]
fn test_zero_values() -> Result<()> {
    assert_eq!(parse_sleep_duration("0")?, Duration::from_millis(0));
    assert_eq!(parse_sleep_duration("0ms")?, Duration::from_millis(0));
    assert_eq!(parse_sleep_duration("0s")?, Duration::from_millis(0));
    assert_eq!(parse_sleep_duration("0m")?, Duration::from_millis(0));
    assert_eq!(parse_sleep_duration("0h")?, Duration::from_millis(0));
    assert_eq!(parse_sleep_duration("0h0m0s")?, Duration::from_millis(0));
    assert_eq!(parse_sleep_duration("0s0ms")?, Duration::from_millis(0));

    Ok(())
}

fn invalid(text: &str) -> std::result::Result<Duration, SleepError> {
    Err(SleepError::InvalidDuration(format!(
        "Invalid sleep duration format: '{}'",
        text
    )))
}

#[test]
fn bare_integers_are_milliseconds() {
    assert_eq!(parse_sleep_duration("12345"), Ok(Duration::from_millis(12345)));
    assert_eq!(parse_sleep_duration("+7"), Ok(Duration::from_millis(7)));
    assert_eq!(parse_sleep_duration("-50"), Ok(Duration::from_millis(0)));
    assert_eq!(parse_sleep_duration("-0"), Ok(Duration::from_millis(0)));
    let max = isize::MAX.to_string();
    assert_eq!(
        parse_sleep_duration(&max),
        Ok(Duration::from_millis(isize::MAX as u64))
    );
    let beyond = (isize::MAX as u128 + 1).to_string();
    assert_eq!(parse_sleep_duration(&beyond), invalid(&beyond));
}

#[test]
fn blank_text_is_zero() {
    assert_eq!(parse_sleep_duration(""), Ok(Duration::from_millis(0)));
    assert_eq!(parse_sleep_duration("   "), Ok(Duration::from_millis(0)));
    assert_eq!(parse_sleep_duration("\t\n "), Ok(Duration::from_millis(0)));
}

#[test]
fn every_spelling_in_every_case() {
    let table: [(&str, u64); 17] = [
        ("ms", 1),
        ("milli", 1),
        ("millis", 1),
        ("millisecond", 1),
        ("milliseconds", 1),
        ("s", 1000),
        ("sec", 1000),
        ("second", 1000),
        ("seconds", 1000),
        ("m", 60_000),
        ("min", 60_000),
        ("minute", 60_000),
        ("minutes", 60_000),
        ("h", 3_600_000),
        ("hr", 3_600_000),
        ("hour", 3_600_000),
        ("hours", 3_600_000),
    ];
    for (spelling, factor) in table {
        let expected = Ok(Duration::from_millis(5 * factor));
        assert_eq!(parse_sleep_duration(&format!("5{}", spelling)), expected);
        assert_eq!(
            parse_sleep_duration(&format!("5{}", spelling.to_uppercase())),
            expected
        );
        let mixed: String = spelling
            .chars()
            .enumerate()
            .map(|(i, c)| if i % 2 == 0 { c.to_ascii_uppercase() } else { c })
            .collect();
        assert_eq!(parse_sleep_duration(&format!("5{}", mixed)), expected);
        assert_eq!(parse_sleep_duration(&format!("5 {}", spelling)), expected);
    }
}

#[test]
fn decimal_magnitudes_only_for_seconds_and_minutes() {
    assert_eq!(parse_sleep_duration("1.5s"), Ok(Duration::from_millis(1500)));
    assert_eq!(parse_sleep_duration("0.5m"), Ok(Duration::from_millis(30000)));
    assert_eq!(parse_sleep_duration(".5s"), Ok(Duration::from_millis(500)));
    assert_eq!(parse_sleep_duration("0.001s"), Ok(Duration::from_millis(1)));
    assert_eq!(
        parse_sleep_duration("1.25 minutes"),
        Ok(Duration::from_millis(75000))
    );
    assert_eq!(parse_sleep_duration("0.0s"), Ok(Duration::from_millis(0)));
    assert_eq!(parse_sleep_duration("1.5ms"), invalid("1.5ms"));
    assert_eq!(parse_sleep_duration("1.5h"), invalid("1.5h"));
}

#[test]
fn decimal_magnitudes_truncate() {
    // 0.0004 s is 0.4 ms, which truncates to nothing.
    assert_eq!(parse_sleep_duration("0.0004s"), Ok(Duration::from_millis(0)));
    assert_eq!(
        parse_sleep_duration("1.23456s"),
        Ok(Duration::from_millis(1234))
    );
}

#[test]
fn runs_of_units_add_up() {
    assert_eq!(parse_sleep_duration("1h2m3s"), Ok(Duration::from_millis(3723000)));
    assert_eq!(
        parse_sleep_duration("1h 2m 3s"),
        Ok(Duration::from_millis(3723000))
    );
    assert_eq!(parse_sleep_duration("2s500ms"), Ok(Duration::from_millis(2500)));
    assert_eq!(parse_sleep_duration("1H2M3S"), Ok(Duration::from_millis(3723000)));
}

#[test]
fn all_zero_runs_are_zero() {
    assert_eq!(parse_sleep_duration("0h0m0s"), Ok(Duration::from_millis(0)));
    assert_eq!(parse_sleep_duration("0h 0ms"), Ok(Duration::from_millis(0)));
}

#[test]
fn unknown_units_are_passed_over() {
    assert_eq!(parse_sleep_duration("1x2m"), Ok(Duration::from_millis(120000)));
    assert_eq!(parse_sleep_duration("3s and 4 days"), Ok(Duration::from_millis(3000)));
}

#[test]
fn garbage_is_invalid() {
    assert_eq!(parse_sleep_duration("abc"), invalid("abc"));
    assert_eq!(parse_sleep_duration("5x"), invalid("5x"));
    assert_eq!(parse_sleep_duration("1."), invalid("1."));
    // The message quotes the text as it was normalized.
    assert_eq!(parse_sleep_duration("  ABC "), invalid("abc"));
}

#[test]
fn huge_values_saturate() {
    assert_eq!(
        parse_sleep_duration("99999999999999999999s"),
        Ok(Duration::from_millis(u64::MAX))
    );
    assert_eq!(
        parse_sleep_duration("18446744073709551615h1s"),
        Ok(Duration::from_millis(u64::MAX))
    );
}

#[test]
fn text_is_trimmed_before_parsing() {
    assert_eq!(parse_sleep_duration(" 5 "), Ok(Duration::from_millis(5)));
    assert_eq!(parse_sleep_duration("\t2s\n"), Ok(Duration::from_millis(2000)));
}

#[test]
fn normalized_text_is_parsed_as_it_stands() {
    assert_eq!(parse_normalized("5s"), Ok(Duration::from_millis(5000)));
    assert_eq!(parse_normalized(""), Ok(Duration::from_millis(0)));
    assert_eq!(
        parse_normalized("5S"),
        Err(SleepError::InvalidDuration(
            "Invalid sleep duration format: '5S'".to_string()
        ))
    );
}

#[test]
fn parsing_twice_gives_the_same_result() {
    for text in ["1h2m3s", "1.5s", "abc", "", "-3"] {
        assert_eq!(parse_sleep_duration(text), parse_sleep_duration(text));
    }
}

#[test]
fn duration_parts() {
    let d = Duration::from_millis(1500);
    assert_eq!(d.as_secs(), 1);
    assert_eq!(d.subsec_nanos(), 500_000_000);
    assert!(!d.is_zero());
    assert!(Duration::from_millis(0).is_zero());
    assert_eq!(Duration::new(2, 5), Duration::new(2, 5));
    assert_eq!(Duration::from_secs(3), Duration::from_millis(3000));
    let carried = Duration::new(1, 1_500_000_000);
    assert_eq!(carried, Duration::new(2, 500_000_000));
    assert_eq!(carried.as_secs(), 2);
}
