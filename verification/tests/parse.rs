use remind::Delta;
use remind::DeltaError;

#[test]
fn hours_and_minutes() {
    let d = Delta::from_str("2h30m").unwrap();
    assert_eq!(d, Delta { hours: 2, minutes: 30 });
}

#[test]
fn order_insensitive() {
    let a = Delta::from_str("30m2h").unwrap();
    let b = Delta::from_str("2h30m").unwrap();
    assert_eq!(a, b);
    assert_eq!(a, Delta { hours: 2, minutes: 30 });
}

#[test]
fn trailing_digits_dropped() {
    let d = Delta::from_str("2h30").unwrap();
    assert_eq!(d, Delta { hours: 2, minutes: 0 });
}

#[test]
fn empty_string() {
    let d = Delta::from_str("").unwrap();
    assert_eq!(d, Delta { hours: 0, minutes: 0 });
}

#[test]
fn hours_only() {
    let d = Delta::from_str("5h").unwrap();
    assert_eq!(d, Delta { hours: 5, minutes: 0 });
}

#[test]
fn minutes_only() {
    let d = Delta::from_str("45m").unwrap();
    assert_eq!(d, Delta { hours: 0, minutes: 45 });
}

#[test]
fn leading_zeros() {
    let d = Delta::from_str("007h").unwrap();
    assert_eq!(d, Delta { hours: 7, minutes: 0 });
}

#[test]
fn largest_values() {
    let d = Delta::from_str("255h255m").unwrap();
    assert_eq!(d, Delta { hours: 255, minutes: 255 });
}

#[test]
fn repeated_marker_overwrites() {
    let d = Delta::from_str("1h2h").unwrap();
    assert_eq!(d, Delta { hours: 2, minutes: 0 });
}

#[test]
fn zero_duration() {
    let d = Delta::from_str("0h0m").unwrap();
    assert_eq!(d, Delta { hours: 0, minutes: 0 });
}

#[test]
fn syntax_error_letter() {
    let e = Delta::from_str("2x30m").unwrap_err();
    assert_eq!(e.message, "Invalid syntax, ex: 2h30m");
}

#[test]
fn syntax_error_space() {
    let e = Delta::from_str("2h 30m").unwrap_err();
    assert_eq!(e.message, "Invalid syntax, ex: 2h30m");
}

#[test]
fn syntax_error_sign() {
    let e = Delta::from_str("-2h").unwrap_err();
    assert_eq!(e.message, "Invalid syntax, ex: 2h30m");
}

#[test]
fn empty_hours() {
    let e = Delta::from_str("h").unwrap_err();
    assert_eq!(e.message, "Invalid hours");
}

#[test]
fn empty_minutes() {
    let e = Delta::from_str("2hm").unwrap_err();
    assert_eq!(e.message, "Invalid minutes");
}

#[test]
fn earlier_error_wins() {
    // The bad character comes after the bare marker, so the marker's own
    // error is the one reported.
    let e = Delta::from_str("hx").unwrap_err();
    assert_eq!(e.message, "Invalid hours");
}

#[test]
fn hours_overflow() {
    let e = Delta::from_str("300h").unwrap_err();
    assert_eq!(e.message, "Invalid hours");
}

#[test]
fn minutes_overflow() {
    let e = Delta::from_str("1h999m").unwrap_err();
    assert_eq!(e.message, "Invalid minutes");
}

#[test]
fn unicode_digit_accumulates() {
    // An Arabic-Indic digit is numeric, so it reaches the accumulator, which
    // then does not read as a byte at the marker.
    let e = Delta::from_str("\u{0662}h").unwrap_err();
    assert_eq!(e.message, "Invalid hours");
}

#[test]
fn unicode_digit_dropped_at_end() {
    // A circled digit is numeric too; left trailing, it is dropped.
    let d = Delta::from_str("2h\u{2460}").unwrap();
    assert_eq!(d, Delta { hours: 2, minutes: 0 });
}

#[test]
fn non_numeric_unicode_rejected() {
    let e = Delta::from_str("\u{00e9}h").unwrap_err();
    assert_eq!(e.message, "Invalid syntax, ex: 2h30m");
}

#[test]
fn error_message_kept() {
    let e = DeltaError::new("Invalid hours");
    assert_eq!(e.message, "Invalid hours");
}

#[test]
fn total_seconds_exact() {
    let d = Delta { hours: 2, minutes: 30 };
    assert_eq!(d.total_seconds(), 9000);
}

#[test]
fn total_seconds_largest() {
    let d = Delta { hours: 255, minutes: 255 };
    assert_eq!(d.total_seconds(), 255 * 3600 + 255 * 60);
}
