use lucius::values::{
    expect_one, parse_bool, parse_duration_usec, parse_i32, parse_mode, parse_u32, parse_u64,
    IntErrorKind,
};

#[test]
fn systemd_durations_accept_unit_file_spellings() {
    assert_eq!(parse_duration_usec("RestartSec", "3").unwrap(), 3_000_000);
    assert_eq!(
        parse_duration_usec("TimeoutStartSec", "1min 30s").unwrap(),
        90_000_000
    );
    assert_eq!(
        parse_duration_usec("TimeoutSec", "infinity").unwrap(),
        u64::MAX
    );
}

#[test]
fn durations_take_fractions_and_every_unit() {
    assert_eq!(parse_duration_usec("X", "1.5s").unwrap(), 1_500_000);
    assert_eq!(parse_duration_usec("X", "500ms").unwrap(), 500_000);
    assert_eq!(parse_duration_usec("X", "250us").unwrap(), 250);
    assert_eq!(parse_duration_usec("X", "2h").unwrap(), 7_200_000_000);
    assert_eq!(parse_duration_usec("X", "1d").unwrap(), 86_400_000_000);
    assert_eq!(parse_duration_usec("X", "1w 1d").unwrap(), 691_200_000_000);
    assert_eq!(parse_duration_usec("X", "  INFINITY ").unwrap(), u64::MAX);
}

#[test]
fn bad_durations_are_refused_with_their_reason() {
    assert_eq!(
        parse_duration_usec("RestartSec", "  ").unwrap_err(),
        "RestartSec requires a non-empty duration"
    );
    assert_eq!(
        parse_duration_usec("RestartSec", "5 fortnights").unwrap_err(),
        "unsupported duration unit for RestartSec: `fortnights`"
    );
    assert_eq!(
        parse_duration_usec("RestartSec", "soon").unwrap_err(),
        "invalid duration for RestartSec: `soon`"
    );
    assert!(parse_duration_usec("RestartSec", "100000000w")
        .unwrap_err()
        .contains("out of range"));
}

#[test]
fn booleans_follow_systemd() {
    for v in ["1", "true", "YES", "On"] {
        assert_eq!(parse_bool("Accept", v), Ok(true));
    }
    for v in ["0", "false", "no", "OFF"] {
        assert_eq!(parse_bool("Accept", v), Ok(false));
    }
    assert_eq!(
        parse_bool("Accept", "maybe").unwrap_err(),
        "invalid boolean for Accept: `maybe`"
    );
}

#[test]
fn modes_are_octal_with_a_leading_zero() {
    assert_eq!(parse_mode("SocketMode", "0755").unwrap(), 0o755);
    assert_eq!(parse_mode("SocketMode", "0o644").unwrap(), 0o644);
    assert_eq!(parse_mode("SocketMode", " 0O600 ").unwrap(), 0o600);
    assert_eq!(parse_mode("SocketMode", "644").unwrap(), 644);
    assert_eq!(parse_mode("SocketMode", "0").unwrap(), 0);
    assert_eq!(
        parse_mode("SocketMode", "0789").unwrap_err(),
        "invalid mode for SocketMode: invalid digit found in string"
    );
}

#[test]
fn integers_parse_as_std_does() {
    assert_eq!(parse_u32("42"), Ok(42));
    assert_eq!(parse_u32("+7"), Ok(7));
    assert_eq!(parse_u32(""), Err(IntErrorKind::Empty));
    assert_eq!(parse_u32("-1"), Err(IntErrorKind::InvalidDigit));
    assert_eq!(parse_u32("4294967296"), Err(IntErrorKind::PosOverflow));
    assert_eq!(parse_i32("-2147483648"), Ok(i32::MIN));
    assert_eq!(parse_i32("-2147483649"), Err(IntErrorKind::NegOverflow));
    assert_eq!(parse_i32("-"), Err(IntErrorKind::InvalidDigit));
    assert_eq!(parse_u64("18446744073709551615"), Ok(u64::MAX));
}

#[test]
fn options_with_one_value_need_exactly_one() {
    let none: Vec<String> = Vec::new();
    let one = vec!["a".to_string()];
    let two = vec!["a".to_string(), "b".to_string()];
    assert_eq!(expect_one("Backlog", &none).unwrap_err(), "Backlog requires one value");
    assert_eq!(expect_one("Backlog", &one).unwrap(), "a");
    assert_eq!(expect_one("Backlog", &two).unwrap_err(), "Backlog accepts only one value");
}
