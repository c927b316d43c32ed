use pg_prism::clock::Span;
use pg_prism::limits::{parse_secs, Limits};
use pg_prism::settings::Setting::{Absent, NotText, Text};

#[test]
fn defaults_are_bounded() {
    let l = Limits::default();
    assert_eq!(l.max_startup_len, 10000);
    assert_eq!(l.max_proxy_header_len, 108);
    assert!(l.handshake_timeout > Span::from_secs(0));
    assert!(l.upstream_connect_timeout > Span::from_secs(0));
}

#[test]
fn zero_and_garbage_timeouts_are_rejected() {
    assert!(parse_secs("X", "0").is_err());
    assert!(parse_secs("X", "abc").is_err());
    assert!(parse_secs("X", "-1").is_err());
    assert_eq!(parse_secs("X", " 30 ").unwrap(), 30);
}

#[test]
fn timeouts_are_whole_numbers_of_64_bits() {
    assert_eq!(parse_secs("X", "+7").unwrap(), 7);
    assert_eq!(parse_secs("X", "\u{a0}007\t\n").unwrap(), 7);
    assert_eq!(
        parse_secs("X", "18446744073709551615").unwrap(),
        18446744073709551615
    );
    for raw in ["18446744073709551616", "99999999999999999999999", "", "+", "1.5", "1 2", "٣"] {
        assert!(parse_secs("X", raw).is_err(), "{:?}", raw);
    }
}

#[test]
fn timeout_errors_name_the_setting() {
    assert_eq!(
        parse_secs("HANDSHAKE_TIMEOUT_SECS", "a\"b\n").unwrap_err(),
        "HANDSHAKE_TIMEOUT_SECS must be a whole number of seconds, got \"a\\\"b\\n\""
    );
    assert_eq!(
        parse_secs("X", "00").unwrap_err(),
        "X must be greater than zero"
    );
}

#[test]
fn the_environment_sets_the_two_deadlines() {
    let l = Limits::from_env(Text("30"), Text(" 7 ")).unwrap();
    assert_eq!(l.handshake_timeout, Span::from_secs(30));
    assert_eq!(l.upstream_connect_timeout, Span::from_secs(7));
    assert_eq!(l.drain_timeout, Span::from_secs(10));
    let l = Limits::from_env(Absent, Absent).unwrap();
    assert_eq!(l.handshake_timeout, Span::from_secs(10));
    assert_eq!(l.upstream_connect_timeout, Span::from_secs(5));
    assert_eq!(
        Limits::from_env(Text("x"), Text("0")).unwrap_err(),
        "HANDSHAKE_TIMEOUT_SECS must be a whole number of seconds, got \"x\""
    );
    assert_eq!(
        Limits::from_env(Absent, Text("0")).unwrap_err(),
        "UPSTREAM_CONNECT_TIMEOUT_SECS must be greater than zero"
    );
}

#[test]
fn a_deadline_that_is_no_text_is_an_error_and_no_default() {
    assert_eq!(
        Limits::from_env(NotText("1\u{fffd}"), Absent).unwrap_err(),
        "HANDSHAKE_TIMEOUT_SECS must be a whole number of seconds, got \"1\u{fffd}\""
    );
    assert_eq!(
        Limits::from_env(Text("30"), NotText("7")).unwrap_err(),
        "UPSTREAM_CONNECT_TIMEOUT_SECS must be a whole number of seconds, got \"7\""
    );
}

#[test]
fn spans_hold_seconds_and_nanoseconds() {
    let s = Span::from_millis(1750);
    assert_eq!(s.as_secs(), 1);
    assert_eq!(s.subsec_nanos(), 750_000_000);
    assert_eq!(s.as_nanos(), 1_750_000_000);
    assert!(Span::from_millis(999) < Span::from_secs(1));
    assert_eq!(Span::from_millis(2000), Span::from_secs(2));
    assert_eq!(
        Span::from_secs(u64::MAX).as_nanos(),
        u64::MAX as u128 * 1_000_000_000
    );
}
