use pg_prism::clock::Span;
use pg_prism::net::{normalise, parse_address, parse_network, IpAddress, IpNet};
use pg_prism::settings::Setting;
use pg_prism::trust::{RejectionLog, TrustError, TrustedProxies, DEFAULT_TRUSTED_PROXIES};

fn ip(s: &str) -> IpAddress {
    parse_address(s).unwrap()
}

fn default() -> TrustedProxies {
    TrustedProxies::parse(DEFAULT_TRUSTED_PROXIES).unwrap()
}

#[test]
fn default_trusts_ipv4_loopback() {
    assert!(default().is_trusted(ip("127.0.0.1")));
    assert!(default().is_trusted(ip("127.1.2.3")));
}

#[test]
fn default_trusts_ipv6_loopback() {
    assert!(default().is_trusted(ip("::1")));
}

#[test]
fn default_rejects_off_host_addresses() {
    assert!(!default().is_trusted(ip("10.0.0.5")));
    assert!(!default().is_trusted(ip("192.168.1.50")));
    assert!(!default().is_trusted(ip("203.0.113.99")));
    assert!(!default().is_trusted(ip("2001:db8::1")));
}

#[test]
fn ipv4_mapped_loopback_is_trusted() {
    assert!(default().is_trusted(ip("::ffff:127.0.0.1")));
}

#[test]
fn ipv4_mapped_off_host_address_is_still_rejected() {
    assert!(!default().is_trusted(ip("::ffff:10.0.0.5")));
}

#[test]
fn parse_rejects_malformed_entries() {
    assert!(TrustedProxies::parse("127.0.0.0/8,not-an-ip").is_err());
    assert!(TrustedProxies::parse("999.0.0.1/8").is_err());
    assert!(TrustedProxies::parse("127.0.0.0/33").is_err());
}

#[test]
fn parse_rejects_empty_specification() {
    assert!(matches!(TrustedProxies::parse(""), Err(TrustError::Empty)));
    assert!(matches!(
        TrustedProxies::parse("   ,  , "),
        Err(TrustError::Empty)
    ));
}

#[test]
fn parse_tolerates_whitespace() {
    let t = TrustedProxies::parse(" 10.0.0.0/8 , 192.168.0.0/16 ").unwrap();
    assert!(t.is_trusted(ip("10.1.2.3")));
    assert!(t.is_trusted(ip("192.168.99.1")));
}

#[test]
fn parse_accepts_bare_addresses_as_hosts() {
    let t = TrustedProxies::parse("10.0.0.7,::1").unwrap();
    assert!(t.is_trusted(ip("10.0.0.7")));
    assert!(!t.is_trusted(ip("10.0.0.8")));
    assert!(t.is_trusted(ip("::1")));
}

#[test]
fn ipv4_default_route_does_not_cover_ipv6() {
    let t = TrustedProxies::parse("0.0.0.0/0").unwrap();
    assert!(t.is_trusted(ip("203.0.113.99")));
    assert!(!t.is_trusted(ip("2001:db8::1")));
}

#[test]
fn both_default_routes_trust_everything() {
    let t = TrustedProxies::parse("0.0.0.0/0,::/0").unwrap();
    assert!(t.is_trusted(ip("203.0.113.99")));
    assert!(t.is_trusted(ip("2001:db8::1")));
}

#[test]
fn rejection_log_throttles() {
    let mut log = RejectionLog::new(Span::from_secs(3600));
    assert_eq!(log.should_log(), Some(0), "first event logs");
    assert_eq!(log.should_log(), None, "second is suppressed");
    assert_eq!(log.should_log(), None, "third is suppressed");
}

#[test]
fn rejection_log_reports_suppressed_count() {
    let mut log = RejectionLog::new(Span::from_millis(0));
    assert_eq!(log.should_log(), Some(0));
    let mut log = RejectionLog::new(Span::from_secs(3600));
    log.should_log();
    log.should_log();
    log.should_log();
    let counted = log.suppressed();
    assert_eq!(counted, 2);
}

#[test]
fn rejection_log_lets_a_line_through_after_the_interval() {
    let mut log = RejectionLog::default();
    let at = |ms| Span::from_millis(ms);
    assert_eq!(log.should_log_at(at(500)), Some(0));
    assert_eq!(log.should_log_at(at(600)), None);
    assert_eq!(log.should_log_at(at(10_499)), None);
    assert_eq!(log.should_log_at(at(10_500)), Some(2));
    assert_eq!(log.should_log_at(at(10_501)), None);
    assert_eq!(log.should_log_at(at(20_500)), Some(1));
    assert_eq!(log.should_log_at(at(30_500)), Some(0));
    assert_eq!(log.suppressed(), 0);
}

#[test]
fn a_log_without_an_interval_swallows_nothing() {
    let mut log = RejectionLog::new(Span::from_secs(0));
    for _ in 0..5 {
        assert_eq!(log.should_log(), Some(0));
    }
    let mut log = RejectionLog::new(Span::from_millis(1));
    assert_eq!(log.should_log_at(Span::from_secs(5)), Some(0));
    // A reading from before the last line counts as no time at all.
    assert_eq!(log.should_log_at(Span::from_secs(4)), None);
}

#[test]
fn trust_errors_say_what_is_wrong() {
    let empty = TrustedProxies::parse(" , ").unwrap_err();
    assert_eq!(
        empty.message(),
        "TRUSTED_PROXIES is set but empty. An empty allowlist trusts nothing and would \
         reject every connection. To trust every peer, which disables \
         spoofing protection entirely, set TRUSTED_PROXIES=0.0.0.0/0,::/0"
    );
    match TrustedProxies::parse("10.0.0.0/8, bad one ,10.0.0.1/8,worse") {
        Err(TrustError::BadEntry { entry }) => assert_eq!(entry, "bad one"),
        _ => panic!("the list was accepted"),
    }
    assert_eq!(
        TrustedProxies::parse("\"x\"").unwrap_err().message(),
        "TRUSTED_PROXIES contains an entry that is not an IP address or CIDR block: \"\\\"x\\\"\""
    );
}

#[test]
fn the_environment_gives_the_allowlist_or_loopback() {
    let t = TrustedProxies::from_env(Setting::Absent).unwrap();
    assert_eq!(t.spec(), "127.0.0.0/8,::1/128");
    assert!(t.is_trusted(ip("127.0.0.1")));
    let t = TrustedProxies::from_env(Setting::Text("  10.0.0.0/8 ")).unwrap();
    assert_eq!(t.spec(), "10.0.0.0/8");
    assert!(!t.is_trusted(ip("127.0.0.1")));
    assert_eq!(t.clone().spec(), "10.0.0.0/8");
    assert!(t.clone().is_trusted(ip("10.9.9.9")));
    assert!(TrustedProxies::from_env(Setting::Text("")).is_err());
    match TrustedProxies::from_env(Setting::NotText("10.0.0.0/8")) {
        Err(TrustError::BadEntry { entry }) => assert_eq!(entry, "10.0.0.0/8"),
        _ => panic!("a value that is no text was accepted"),
    }
}

// ---- addresses and networks -------------------------------------------------

#[test]
fn literals_stand_for_their_bits() {
    assert_eq!(parse_address("10.0.0.1"), Some(IpAddress::V4(0x0a000001)));
    assert_eq!(parse_address("::1"), Some(IpAddress::V6(1)));
    assert_eq!(
        parse_address("2001:db8::dead:beef"),
        Some(IpAddress::V6(0x20010db8_00000000_00000000_deadbeef))
    );
    for s in ["", "10.0.0", "10.0.0.1/32", "::1/128", "10.0.0.1 ", "localhost", "010.0.0.1"] {
        assert_eq!(parse_address(s), None, "{:?}", s);
    }
}

#[test]
fn networks_are_blocks_or_single_addresses() {
    assert_eq!(
        parse_network("10.0.0.0/8"),
        Some(IpNet { first: IpAddress::V4(0x0a000000), length: 8 })
    );
    assert_eq!(
        parse_network("10.0.0.1"),
        Some(IpNet { first: IpAddress::V4(0x0a000001), length: 32 })
    );
    assert_eq!(
        parse_network("::1"),
        Some(IpNet { first: IpAddress::V6(1), length: 128 })
    );
    assert_eq!(
        parse_network("::/0"),
        Some(IpNet { first: IpAddress::V6(0), length: 0 })
    );
    assert_eq!(
        parse_network("10.0.0.0/+8"),
        Some(IpNet { first: IpAddress::V4(0x0a000000), length: 8 })
    );
    for s in [
        "10.0.0.1/8", "10.0.0.0/33", "::1/129", "10.0.0.0/256", "10.0.0.0/", "/8", "10.0.0.0/8/8",
        "10.0.0.0/-8", "10.0.0.0 /8", "2001:db8::1/32",
    ] {
        assert_eq!(parse_network(s), None, "{:?}", s);
    }
}

#[test]
fn a_network_covers_the_addresses_that_share_its_bits() {
    let covers = |net: &str, address: &str| parse_network(net).unwrap().contains(ip(address));
    assert!(covers("10.0.0.0/8", "10.255.255.255"));
    assert!(!covers("10.0.0.0/8", "11.0.0.0"));
    assert!(covers("192.168.1.128/25", "192.168.1.200"));
    assert!(!covers("192.168.1.128/25", "192.168.1.127"));
    assert!(covers("0.0.0.0/0", "255.255.255.255"));
    assert!(!covers("0.0.0.0/0", "::1"));
    assert!(!covers("::/0", "127.0.0.1"));
    assert!(covers("::/0", "ffff::"));
    assert!(covers("2001:db8::/32", "2001:db8:ffff::1"));
    assert!(!covers("2001:db8::/32", "2001:db9::"));
    assert!(covers("10.0.0.7", "10.0.0.7"));
    assert!(!covers("10.0.0.7", "10.0.0.6"));
}

#[test]
fn only_mapped_addresses_are_collapsed() {
    assert_eq!(normalise(ip("::ffff:10.0.0.1")), ip("10.0.0.1"));
    assert_eq!(normalise(ip("10.0.0.1")), ip("10.0.0.1"));
    assert_eq!(normalise(ip("::10.0.0.1")), ip("::10.0.0.1"));
    assert_eq!(normalise(ip("1::ffff:10.0.0.1")), ip("1::ffff:10.0.0.1"));
}
