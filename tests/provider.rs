use uptime::{
    now, uptime_from_boot_time, uptime_from_monotonic, uptime_from_text, uptime_since_boot,
    UptimeError,
};

const UNAVAILABLE: Result<u64, UptimeError> = Err(UptimeError::Unavailable);

#[test]
fn text_with_fraction_is_truncated() {
    assert_eq!(uptime_from_text(b"12345.67 54321.00\n"), Ok(12345));
}

#[test]
fn text_with_leading_whitespace() {
    assert_eq!(uptime_from_text(b" \t\n7 8"), Ok(7));
}

#[test]
fn text_without_fraction() {
    assert_eq!(uptime_from_text(b"90061"), Ok(90061));
}

#[test]
fn text_with_bare_fraction_or_bare_dot() {
    assert_eq!(uptime_from_text(b".99 1"), Ok(0));
    assert_eq!(uptime_from_text(b"5. 1"), Ok(5));
}

#[test]
fn text_empty_or_blank_is_unavailable() {
    assert_eq!(uptime_from_text(b""), UNAVAILABLE);
    assert_eq!(uptime_from_text(b"   \n"), UNAVAILABLE);
}

#[test]
fn text_not_a_number_is_unavailable() {
    assert_eq!(uptime_from_text(b"abc 1.0"), UNAVAILABLE);
    assert_eq!(uptime_from_text(b"1.2.3"), UNAVAILABLE);
    assert_eq!(uptime_from_text(b"."), UNAVAILABLE);
    assert_eq!(uptime_from_text(b"12x"), UNAVAILABLE);
}

#[test]
fn text_only_first_token_counts() {
    assert_eq!(uptime_from_text(b"42 junk"), Ok(42));
}

#[test]
fn text_largest_and_too_large() {
    assert_eq!(uptime_from_text(b"18446744073709551615.99"), Ok(u64::MAX));
    assert_eq!(uptime_from_text(b"18446744073709551616.00"), UNAVAILABLE);
    assert_eq!(uptime_from_text(b"99999999999999999999999"), UNAVAILABLE);
}

#[test]
fn boot_time_elapsed() {
    assert_eq!(uptime_from_boot_time(0, 1000, Some(1500)), Ok(500));
    assert_eq!(uptime_from_boot_time(0, 1500, Some(1500)), Ok(0));
}

#[test]
fn boot_time_failed_call_is_unavailable() {
    assert_eq!(uptime_from_boot_time(-1, 1000, Some(1500)), UNAVAILABLE);
}

#[test]
fn boot_time_without_clock_is_unavailable() {
    assert_eq!(uptime_from_boot_time(0, 1000, None), UNAVAILABLE);
}

#[test]
fn boot_time_in_future_or_before_epoch_is_unavailable() {
    assert_eq!(uptime_from_boot_time(0, 2000, Some(1500)), UNAVAILABLE);
    assert_eq!(uptime_from_boot_time(0, -1, Some(1500)), UNAVAILABLE);
}

#[test]
fn since_boot_failed_call_is_unavailable() {
    assert_eq!(uptime_since_boot(-1, 0), UNAVAILABLE);
    assert_eq!(uptime_since_boot(0, -10), UNAVAILABLE);
}

#[test]
fn since_boot_measures_against_the_clock() {
    let before = now().unwrap();
    let boot = (before - 100) as i64;
    let up = uptime_since_boot(0, boot).unwrap();
    let after = now().unwrap();
    assert!(up >= 100);
    assert!(up <= after - boot as u64);
}

#[test]
fn monotonic_reading() {
    assert_eq!(uptime_from_monotonic(true, 42), Ok(42));
    assert_eq!(uptime_from_monotonic(true, 0), Ok(0));
}

#[test]
fn monotonic_failed_read_is_unavailable() {
    assert_eq!(uptime_from_monotonic(false, 42), UNAVAILABLE);
    assert_eq!(uptime_from_monotonic(true, -1), UNAVAILABLE);
}

#[test]
fn clock_reads_after_epoch() {
    assert!(now().unwrap() > 1_500_000_000);
}

#[test]
fn error_message() {
    assert_eq!(UptimeError::Unavailable.message(), "could not determine system uptime");
}

#[test]
fn text_with_exponent() {
    assert_eq!(uptime_from_text(b"1e2 0"), Ok(100));
    assert_eq!(uptime_from_text(b"1E2"), Ok(100));
    assert_eq!(uptime_from_text(b"1.5e1"), Ok(15));
    assert_eq!(uptime_from_text(b".5e1"), Ok(5));
    assert_eq!(uptime_from_text(b"12345e-2"), Ok(123));
    assert_eq!(uptime_from_text(b"5e-1"), Ok(0));
    assert_eq!(uptime_from_text(b"2e+3"), Ok(2000));
    assert_eq!(uptime_from_text(b"1.8446744073709551615e19"), Ok(u64::MAX));
    assert_eq!(uptime_from_text(b"1e19"), Ok(10_000_000_000_000_000_000));
}

#[test]
fn text_with_extreme_exponents() {
    assert_eq!(uptime_from_text(b"1e-400"), Ok(0));
    assert_eq!(uptime_from_text(b"0e99999999999999999999999"), Ok(0));
    assert_eq!(uptime_from_text(b"7e-99999999999999999999999"), Ok(0));
    assert_eq!(uptime_from_text(b"1e20"), UNAVAILABLE);
    assert_eq!(uptime_from_text(b"1e400"), UNAVAILABLE);
    assert_eq!(uptime_from_text(b"1e99999999999999999999999"), UNAVAILABLE);
}

#[test]
fn text_with_sign() {
    assert_eq!(uptime_from_text(b"+5"), Ok(5));
    assert_eq!(uptime_from_text(b"-0.0"), Ok(0));
    assert_eq!(uptime_from_text(b"-0.5"), Ok(0));
    assert_eq!(uptime_from_text(b"-5e-1"), Ok(0));
    assert_eq!(uptime_from_text(b"-5"), UNAVAILABLE);
    assert_eq!(uptime_from_text(b"-1e0"), UNAVAILABLE);
}

#[test]
fn text_malformed_number_is_unavailable() {
    assert_eq!(uptime_from_text(b"1e"), UNAVAILABLE);
    assert_eq!(uptime_from_text(b"1e+"), UNAVAILABLE);
    assert_eq!(uptime_from_text(b"e5"), UNAVAILABLE);
    assert_eq!(uptime_from_text(b"+"), UNAVAILABLE);
    assert_eq!(uptime_from_text(b"--1"), UNAVAILABLE);
    assert_eq!(uptime_from_text(b"1e5.0"), UNAVAILABLE);
    assert_eq!(uptime_from_text(b"inf"), UNAVAILABLE);
    assert_eq!(uptime_from_text(b"NaN"), UNAVAILABLE);
}

#[test]
fn text_large_integer_is_exact() {
    assert_eq!(uptime_from_text(b"9007199254740993"), Ok(9007199254740993));
}
