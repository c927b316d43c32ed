use pg_prism::clock::{Span, TimeOfDay};
use pg_prism::guardian::{Action, BlockedWord, Guardian, Rule};
use pg_prism::limits::Limits;
use pg_prism::net::parse_address;
use pg_prism::protocol::{extract_user_db, make_error_response};
use pg_prism::proxy::{
    checked_startup_len, proxied_client_address, read_proxy_v1_header, HandshakeError,
    HeaderProgress, ProxyConfig,
};
use pg_prism::session::{Event, Phase, Session, Step};
use pg_prism::trust::TrustedProxies;

// ---- startup lengths --------------------------------------------------------

#[test]
fn startup_length_below_the_minimum_is_rejected() {
    let l = Limits::default();
    for n in [0u32, 1, 4, 7] {
        assert!(checked_startup_len(n, &l).is_err(), "accepted {}", n);
    }
}

#[test]
fn startup_length_above_the_cap_is_rejected() {
    let l = Limits::default();
    assert!(checked_startup_len(10_001, &l).is_err());
    assert!(checked_startup_len(u32::MAX, &l).is_err());
    assert!(checked_startup_len(64 * 1024 * 1024, &l).is_err());
}

#[test]
fn legitimate_startup_lengths_are_accepted() {
    let l = Limits::default();
    assert_eq!(checked_startup_len(8, &l).unwrap(), 4); // SSLRequest
    assert_eq!(checked_startup_len(10_000, &l).unwrap(), 9_996);
}

#[test]
fn startup_length_errors_name_the_numbers() {
    let l = Limits::default();
    let HandshakeError::Protocol(low) = checked_startup_len(7, &l).unwrap_err();
    assert_eq!(low, "startup packet length 7 is below the 8-byte minimum");
    let HandshakeError::Protocol(high) = checked_startup_len(4294967295, &l).unwrap_err();
    assert_eq!(
        high,
        "startup packet length 4294967295 exceeds the 10000-byte limit"
    );
}

// ---- the PROXY header -------------------------------------------------------

/// Feeds a header byte by byte, as it comes off a socket.
fn read_header(wire: &[u8], max_len: usize) -> HeaderProgress {
    for n in 0..=wire.len() {
        match read_proxy_v1_header(&wire[..n], max_len) {
            HeaderProgress::More => {}
            done => return done,
        }
    }
    HeaderProgress::More
}

#[test]
fn proxy_header_longer_than_the_cap_is_rejected() {
    let junk = vec![b'A'; 4096];
    match read_header(&junk, 108) {
        HeaderProgress::Failed(HandshakeError::Protocol(why)) => assert_eq!(
            why,
            "PROXY header exceeded 108 bytes without a line terminator"
        ),
        _ => panic!("accepted"),
    }
    assert!(matches!(
        read_proxy_v1_header(&junk[..107], 108),
        HeaderProgress::More
    ));
}

#[test]
fn well_formed_proxy_header_yields_the_client_address() {
    let line = b"PROXY TCP4 203.0.113.7 10.0.0.1 5555 5433\r\n";
    match read_header(line, 108) {
        HeaderProgress::Complete(ip) => assert_eq!(ip, "203.0.113.7"),
        _ => panic!("refused"),
    }
}

#[test]
fn non_proxy_traffic_is_rejected() {
    let line = b"GET / HTTP/1.1\r\n";
    match read_header(line, 108) {
        HeaderProgress::Failed(HandshakeError::Protocol(why)) => assert_eq!(
            why,
            "connection did not begin with a PROXY protocol v1 header"
        ),
        _ => panic!("accepted"),
    }
}

#[test]
fn the_third_word_of_the_line_is_the_address() {
    let ok = |line: &str| proxied_client_address(line).unwrap();
    assert_eq!(ok("PROXY TCP4 1.2.3.4"), "1.2.3.4");
    assert_eq!(ok("PROXYx y z\r\n"), "z");
    let err = |line: &str| {
        let HandshakeError::Protocol(why) = proxied_client_address(line).unwrap_err();
        why
    };
    assert_eq!(err("PROXY UNKNOWN\r\n"), "malformed PROXY header: \"PROXY UNKNOWN\"");
    assert_eq!(err("PROXY  \t\r\n"), "malformed PROXY header: \"PROXY\"");
    assert_eq!(err("PROXY a  b\r\n"), "malformed PROXY header: \"PROXY a  b\"");
    assert_eq!(
        err(" PROXY TCP4 1.2.3.4"),
        "connection did not begin with a PROXY protocol v1 header"
    );
    // Every single space separates.
    assert_eq!(ok("PROXY  TCP4  1.2.3.4\r\n"), "TCP4");
}

#[test]
fn a_header_that_is_not_utf8_is_decoded() {
    match read_header(b"PROXY TCP4 \xff 10.0.0.1\n", 108) {
        HeaderProgress::Complete(ip) => assert_eq!(ip, "\u{fffd}"),
        _ => panic!("refused"),
    }
}

// ---- a connection -----------------------------------------------------------

/// What became of a connection.
struct Outcome {
    /// What was sent to the client.
    to_client: Vec<u8>,
    /// What was sent to the server, one item per step.
    to_server: Vec<Vec<u8>>,
    /// The words for which statements were blocked.
    words: Vec<Option<BlockedWord>>,
    /// Whether the server was contacted.
    contacted: bool,
    /// Whether TLS was begun.
    tls: bool,
    /// Whether the connection was closed.
    closed: bool,
    /// How many of the client's bytes were read.
    read: usize,
}

/// A client that sends `wire` and a server that may or may not be there.
fn run(cfg: &ProxyConfig, peer: &str, wire: &[u8], server: bool) -> Outcome {
    let mut out = Outcome {
        to_client: Vec::new(),
        to_server: Vec::new(),
        words: Vec::new(),
        contacted: false,
        tls: false,
        closed: false,
        read: 0,
    };
    let mut session = Session::new();
    let mut event = Event::Accepted(parse_address(peer).unwrap());
    loop {
        let mut want = None;
        let noon = TimeOfDay { hour: 12, minute: 0 };
        event = match session.step_at(event, cfg, noon) {
            Step::Read(n) => {
                want = Some(n);
                Event::Ended
            }
            Step::Reply { reply, read } => {
                out.to_client.extend_from_slice(&reply);
                want = Some(read);
                Event::Ended
            }
            Step::StartTls(reply) => {
                out.to_client.extend_from_slice(&reply);
                out.tls = true;
                Event::TlsEstablished
            }
            Step::Connect => {
                out.contacted = true;
                if server {
                    Event::UpstreamConnected
                } else {
                    Event::UpstreamUnreachable
                }
            }
            Step::Forward { packet, read } => {
                out.to_server.push(packet);
                want = Some(read);
                Event::Ended
            }
            Step::PassThrough { header, len } => {
                let mut packet = header;
                packet.extend_from_slice(&wire[out.read..out.read + len]);
                out.read += len;
                out.to_server.push(packet);
                Event::PassedThrough
            }
            Step::Block { reply, read, word } => {
                out.to_client.extend_from_slice(&reply);
                out.words.push(word);
                want = Some(read);
                Event::Ended
            }
            Step::Refuse { reply, reason } => {
                assert!(String::from_utf8_lossy(&reply).contains(&format!("M{}\0", reason)));
                out.to_client.extend_from_slice(&reply);
                out.closed = true;
                assert_eq!(session.phase(), Phase::Closed);
                return out;
            }
            Step::Close => {
                out.closed = true;
                assert_eq!(session.phase(), Phase::Closed);
                return out;
            }
        };
        if let Some(n) = want {
            if wire.len() - out.read < n {
                return out;
            }
            event = Event::Received(wire[out.read..out.read + n].to_vec());
            out.read += n;
        }
    }
}

fn config(rules: Vec<Rule>) -> ProxyConfig {
    ProxyConfig {
        pg_addr: "127.0.0.1:5432".to_string(),
        guardian: Guardian { rules },
        tls_available: false,
        trusted: TrustedProxies::parse(pg_prism::trust::DEFAULT_TRUSTED_PROXIES).unwrap(),
        limits: Limits {
            handshake_timeout: Span::from_millis(750),
            upstream_connect_timeout: Span::from_millis(750),
            ..Limits::default()
        },
    }
}

fn allow_all() -> ProxyConfig {
    config(vec![])
}

fn plain_rule(name: &str, action: Action) -> Rule {
    Rule {
        name: name.to_string(),
        action,
        ips: None,
        users: None,
        databases: None,
        time_range: None,
        block_queries: None,
        block_tables: None,
    }
}

fn deny_all() -> ProxyConfig {
    config(vec![plain_rule("deny-all", Action::DENY)])
}

fn inspecting(block_queries: Vec<&str>, block_tables: Vec<&str>) -> ProxyConfig {
    let mut rule = plain_rule("inspect-everything", Action::INSPECT);
    rule.block_queries = Some(block_queries.into_iter().map(String::from).collect());
    rule.block_tables = Some(block_tables.into_iter().map(String::from).collect());
    config(vec![rule])
}

fn startup_phase_packet(code: u32, tail: &[u8]) -> Vec<u8> {
    let mut payload = code.to_be_bytes().to_vec();
    payload.extend_from_slice(tail);
    let mut msg = ((payload.len() + 4) as u32).to_be_bytes().to_vec();
    msg.extend_from_slice(&payload);
    msg
}

fn startup_with_version(version: u32, params: &[(&str, &str)]) -> Vec<u8> {
    let mut tail = Vec::new();
    for (k, v) in params {
        tail.extend_from_slice(k.as_bytes());
        tail.push(0);
        tail.extend_from_slice(v.as_bytes());
        tail.push(0);
    }
    tail.push(0);
    startup_phase_packet(version, &tail)
}

const PROTO_3_0: u32 = 196608;
const PROTO_3_1: u32 = 196609;
const PROTO_3_2: u32 = 196610;
const CANCEL_REQUEST_CODE: u32 = 80877102;
const SSL_REQUEST_CODE: u32 = 80877103;
const GSSENC_REQUEST_CODE: u32 = 80877104;

fn startup_message(params: &[(&str, &str)]) -> Vec<u8> {
    startup_with_version(PROTO_3_0, params)
}

fn proxy_v1_header(client_ip: &str, client_port: u16) -> Vec<u8> {
    format!(
        "PROXY TCP4 {} 127.0.0.1 {} 5433\r\n",
        client_ip, client_port
    )
    .into_bytes()
}

/// The parameter of a startup packet.
fn param(packet: &[u8], key: &str) -> Option<String> {
    let mut section = &packet[8..];
    if section.last() == Some(&0) {
        section = &section[..section.len() - 1];
    }
    let parts: Vec<&[u8]> = section.split(|&b| b == 0).collect();
    let mut i = 0;
    while i + 1 < parts.len() {
        if parts[i] == key.as_bytes() {
            return Some(String::from_utf8_lossy(parts[i + 1]).to_string());
        }
        i += 2;
    }
    None
}

fn query(sql: &str) -> Vec<u8> {
    let mut payload = sql.as_bytes().to_vec();
    payload.push(0);
    let mut msg = vec![b'Q'];
    msg.extend_from_slice(&((payload.len() + 4) as u32).to_be_bytes());
    msg.extend_from_slice(&payload);
    msg
}

fn session_wire(messages: &[Vec<u8>]) -> Vec<u8> {
    let mut wire = proxy_v1_header("203.0.113.99", 40001);
    wire.extend_from_slice(&startup_message(&[
        ("user", "app_user"),
        ("database", "shop"),
    ]));
    for m in messages {
        wire.extend_from_slice(m);
    }
    wire
}

/// What reached the server of one statement, if it did.
fn send_query(cfg: &ProxyConfig, sql: &str) -> Option<Vec<u8>> {
    let out = run(cfg, "127.0.0.1", &session_wire(&[query(sql)]), true);
    assert!(!out.closed, "the connection stays open");
    match out.to_server.len() {
        1 => {
            let mut expected = make_error_response("Query blocked by PG-Prism Guardian", "42501");
            expected.extend_from_slice(b"Z\x00\x00\x00\x05I");
            assert_eq!(out.to_client, expected);
            None
        }
        _ => {
            assert!(out.to_client.is_empty());
            Some(out.to_server[1].clone())
        }
    }
}

// ---- who may connect --------------------------------------------------------

fn forged_connection_bytes() -> Vec<u8> {
    let mut wire = proxy_v1_header("203.0.113.99", 12345);
    wire.extend_from_slice(&startup_message(&[
        ("user", "postgres"),
        ("database", "postgres"),
        ("application_name", "psql"),
    ]));
    wire
}

#[test]
fn untrusted_peer_is_refused_and_never_reaches_the_backend() {
    let mut cfg = allow_all();
    cfg.trusted = TrustedProxies::parse("10.11.12.0/24").unwrap();
    let out = run(&cfg, "127.0.0.1", &forged_connection_bytes(), true);
    assert!(out.closed);
    assert!(out.to_client.is_empty());
    assert!(!out.contacted, "an untrusted peer reached the backend");
    assert_eq!(out.read, 0);
}

#[test]
fn trusted_peer_header_is_honoured() {
    let out = run(&allow_all(), "127.0.0.1", &forged_connection_bytes(), true);
    assert_eq!(
        param(&out.to_server[0], "application_name").as_deref(),
        Some("psql - 203.0.113.99")
    );
}

#[test]
fn forged_loopback_cannot_be_used_to_reach_an_allow_rule() {
    let mut cfg = allow_all();
    cfg.trusted = TrustedProxies::parse("10.11.12.0/24").unwrap();
    let mut wire = proxy_v1_header("127.0.0.1", 12345);
    wire.extend_from_slice(&startup_message(&[
        ("user", "postgres"),
        ("database", "postgres"),
    ]));
    let out = run(&cfg, "127.0.0.1", &wire, true);
    assert!(!out.contacted);
}

#[test]
fn a_closed_session_stays_closed() {
    let cfg = allow_all();
    let mut session = Session::new();
    assert!(matches!(session.step(Event::UpstreamConnected, &cfg), Step::Close));
    let peer = parse_address("127.0.0.1").unwrap();
    assert!(matches!(session.step(Event::Accepted(peer), &cfg), Step::Close));
    assert!(matches!(session.step(Event::Received(vec![1]), &cfg), Step::Close));
}

#[test]
fn a_session_is_driven_by_the_clock_of_the_machine() {
    let cfg = deny_all();
    let mut session = Session::new();
    let mut event = Event::Accepted(parse_address("127.0.0.1").unwrap());
    let wire = session_wire(&[]);
    let mut at = 0;
    loop {
        match session.step(event, &cfg) {
            Step::Read(n) => {
                event = Event::Received(wire[at..at + n].to_vec());
                at += n;
            }
            Step::Refuse { reply, reason } => {
                assert_eq!(reply[0], b'E');
                assert_eq!(
                    reason,
                    "Connection denied by PG-Prism Guardian for IP: 203.0.113.99"
                );
                assert_eq!(session.client_ip(), "203.0.113.99");
                assert_eq!(session.rule(), Some("deny-all"));
                assert_eq!(session.context().unwrap().action, Action::DENY);
                assert_eq!(
                    extract_user_db(session.payload()),
                    ("app_user".to_string(), "shop".to_string())
                );
                return;
            }
            _ => panic!("not refused"),
        }
    }
}

// ---- bounds -----------------------------------------------------------------

fn assert_refused(out: &Outcome) {
    assert!(out.closed);
    assert_eq!(out.to_client[0], b'E');
    assert!(String::from_utf8_lossy(&out.to_client).contains("C08P01\0"));
    assert!(!out.contacted);
}

#[test]
fn oversized_startup_length_is_refused() {
    let mut wire = proxy_v1_header("10.0.0.5", 5555);
    wire.extend_from_slice(&(64u32 * 1024 * 1024).to_be_bytes());
    assert_refused(&run(&allow_all(), "127.0.0.1", &wire, true));
}

#[test]
fn undersized_startup_length_is_refused() {
    let mut wire = proxy_v1_header("10.0.0.5", 5555);
    wire.extend_from_slice(&4u32.to_be_bytes());
    assert_refused(&run(&allow_all(), "127.0.0.1", &wire, true));
}

#[test]
fn oversized_proxy_header_is_refused() {
    let mut wire = b"PROXY TCP4 ".to_vec();
    wire.extend_from_slice(&vec![b'A'; 1024 * 1024]);
    let out = run(&allow_all(), "127.0.0.1", &wire, true);
    assert_refused(&out);
    assert_eq!(out.read, 108);
}

#[test]
fn silent_client_is_disconnected_by_the_handshake_timeout() {
    let cfg = allow_all();
    let mut session = Session::new();
    let peer = parse_address("127.0.0.1").unwrap();
    assert!(matches!(session.step(Event::Accepted(peer), &cfg), Step::Read(1)));
    assert!(matches!(session.step(Event::Ended, &cfg), Step::Close));
}

#[test]
fn client_stalling_after_the_proxy_header_is_disconnected() {
    let cfg = allow_all();
    let mut session = Session::new();
    let peer = parse_address("127.0.0.1").unwrap();
    session.step(Event::Accepted(peer), &cfg);
    for byte in proxy_v1_header("10.0.0.5", 5555) {
        session.step(Event::Received(vec![byte]), &cfg);
    }
    assert_eq!(session.phase(), Phase::StartupLength);
    assert!(matches!(session.step(Event::Ended, &cfg), Step::Close));
}

// ---- forms of the PROXY header ----------------------------------------------

#[test]
fn an_ipv6_proxy_header_yields_the_ipv6_client_address() {
    let mut wire = b"PROXY TCP6 2001:db8::dead:beef ::1 40001 5433\r\n".to_vec();
    wire.extend_from_slice(&startup_message(&[
        ("user", "app_user"),
        ("database", "shop"),
        ("application_name", "psql"),
    ]));
    let out = run(&allow_all(), "127.0.0.1", &wire, true);
    assert_eq!(
        param(&out.to_server[0], "application_name").as_deref(),
        Some("psql - 2001:db8::dead:beef")
    );
}

#[test]
fn a_full_length_ipv6_address_still_fits_the_namedatalen_budget() {
    let addr = "2001:0db8:85a3:0000:0000:8a2e:0370:7334";
    let mut wire = format!("PROXY TCP6 {} ::1 40001 5433\r\n", addr).into_bytes();
    wire.extend_from_slice(&startup_message(&[
        ("user", "app_user"),
        ("database", "shop"),
        ("application_name", "a-fairly-long-application-name"),
    ]));
    let out = run(&allow_all(), "127.0.0.1", &wire, true);
    let name = param(&out.to_server[0], "application_name").expect("no application_name");
    assert!(
        name.ends_with(&format!(" - {}", addr)),
        "the address was truncated: {:?}",
        name
    );
    assert!(name.len() <= 63, "{} bytes: {:?}", name.len(), name);
}

#[test]
fn a_proxy_v2_header_is_refused_rather_than_misparsed() {
    let mut wire: Vec<u8> = vec![
        0x0d, 0x0a, 0x0d, 0x0a, 0x00, 0x0d, 0x0a, 0x51, 0x55, 0x49, 0x54, 0x0a,
    ];
    wire.extend_from_slice(&[0x21, 0x11, 0x00, 0x0c]);
    wire.extend_from_slice(&[203, 0, 113, 99]);
    wire.extend_from_slice(&[127, 0, 0, 1]);
    wire.extend_from_slice(&40001u16.to_be_bytes());
    wire.extend_from_slice(&5433u16.to_be_bytes());
    wire.extend_from_slice(&startup_message(&[("user", "app_user"), ("database", "shop")]));
    assert_refused(&run(&allow_all(), "127.0.0.1", &wire, true));
}

// ---- requests in the startup phase ------------------------------------------

fn cancel_request(pid: u32, key: u32) -> Vec<u8> {
    let mut tail = pid.to_be_bytes().to_vec();
    tail.extend_from_slice(&key.to_be_bytes());
    startup_phase_packet(CANCEL_REQUEST_CODE, &tail)
}

#[test]
fn cancel_request_is_forwarded_verbatim() {
    let request = cancel_request(4242, 0xdead_beef);
    let mut wire = proxy_v1_header("203.0.113.99", 40001);
    wire.extend_from_slice(&request);
    let out = run(&allow_all(), "127.0.0.1", &wire, true);
    assert_eq!(out.to_server[0], request);
    assert_eq!(out.to_server[0][..4], 16u32.to_be_bytes());
}

#[test]
fn cancel_request_is_not_subject_to_guardian_connection_rules() {
    let mut wire = proxy_v1_header("203.0.113.99", 40001);
    wire.extend_from_slice(&cancel_request(99, 1));
    let out = run(&deny_all(), "127.0.0.1", &wire, true);
    assert_eq!(out.to_server[0][..4], 16u32.to_be_bytes());
}

#[test]
fn gssenc_request_is_refused_then_the_startup_proceeds() {
    let mut wire = proxy_v1_header("203.0.113.99", 40001);
    wire.extend_from_slice(&startup_phase_packet(GSSENC_REQUEST_CODE, &[]));
    wire.extend_from_slice(&startup_message(&[
        ("user", "postgres"),
        ("database", "postgres"),
        ("application_name", "after-gssenc"),
    ]));
    let out = run(&allow_all(), "127.0.0.1", &wire, true);
    assert_eq!(out.to_client, b"N".to_vec(), "expected a refusal");
    assert_eq!(
        param(&out.to_server[0], "application_name").as_deref(),
        Some("after-gssenc - 203.0.113.99")
    );
}

#[test]
fn tls_is_begun_where_it_can_be() {
    let mut wire = proxy_v1_header("203.0.113.99", 40001);
    wire.extend_from_slice(&startup_phase_packet(SSL_REQUEST_CODE, &[]));
    wire.extend_from_slice(&startup_message(&[("user", "postgres")]));
    let out = run(&allow_all(), "127.0.0.1", &wire, true);
    assert_eq!(out.to_client, b"N".to_vec());
    assert!(!out.tls && out.contacted);

    let mut cfg = allow_all();
    cfg.tls_available = true;
    let out = run(&cfg, "127.0.0.1", &wire, true);
    assert_eq!(out.to_client, b"S".to_vec());
    assert!(out.tls && out.contacted);
    assert_eq!(
        extract_user_db(&out.to_server[0][4..]),
        ("postgres".to_string(), "postgres".to_string())
    );
}

#[test]
fn nothing_is_negotiated_inside_tls() {
    let mut cfg = allow_all();
    cfg.tls_available = true;
    let mut wire = proxy_v1_header("203.0.113.99", 40001);
    wire.extend_from_slice(&startup_phase_packet(SSL_REQUEST_CODE, &[]));
    wire.extend_from_slice(&startup_phase_packet(GSSENC_REQUEST_CODE, &[]));
    let out = run(&cfg, "127.0.0.1", &wire, true);
    assert_eq!(out.to_client, b"S".to_vec());
    assert!(out.contacted);
}

#[test]
fn unreachable_backend_produces_an_error_response() {
    let mut wire = proxy_v1_header("203.0.113.99", 40001);
    wire.extend_from_slice(&startup_message(&[
        ("user", "postgres"),
        ("database", "postgres"),
    ]));
    let out = run(&allow_all(), "127.0.0.1", &wire, false);
    assert!(out.closed);
    assert_eq!(out.to_client[0], b'E');
    let body = String::from_utf8_lossy(&out.to_client[5..]).to_string();
    assert!(body.contains("08006"), "got {:?}", body);
    assert!(body.contains("VERROR"), "got {:?}", body);
}

// ---- protocol versions ------------------------------------------------------

fn session_params() -> Vec<(&'static str, &'static str)> {
    vec![
        ("user", "app_user"),
        ("database", "shop"),
        ("application_name", "modern-driver"),
    ]
}

fn version_wire(version: u32) -> Vec<u8> {
    let mut wire = proxy_v1_header("203.0.113.99", 40001);
    wire.extend_from_slice(&startup_with_version(version, &session_params()));
    wire
}

#[test]
fn protocol_3_0_is_subject_to_guardian_connection_rules() {
    let out = run(&deny_all(), "127.0.0.1", &version_wire(PROTO_3_0), true);
    assert_eq!(
        out.to_client,
        make_error_response(
            "Connection denied by PG-Prism Guardian for IP: 203.0.113.99",
            "28000"
        )
    );
    assert!(!out.contacted, "a denied connection reached the backend");
    assert!(out.closed);
}

#[test]
fn protocol_3_2_is_subject_to_guardian_connection_rules() {
    let out = run(&deny_all(), "127.0.0.1", &version_wire(PROTO_3_2), true);
    assert!(!out.contacted);
}

#[test]
fn protocol_3_1_is_subject_to_guardian_connection_rules() {
    let out = run(&deny_all(), "127.0.0.1", &version_wire(PROTO_3_1), true);
    assert!(!out.contacted);
}

#[test]
fn protocol_3_2_is_subject_to_guardian_query_rules() {
    let mut wire = version_wire(PROTO_3_2);
    wire.extend_from_slice(&query("DROP TABLE secrets"));
    let out = run(&inspecting(vec!["DROP"], vec![]), "127.0.0.1", &wire, true);
    assert_eq!(out.to_server.len(), 1, "a blocked statement reached the backend");
}

#[test]
fn protocol_3_2_still_gets_the_client_address_injected() {
    let out = run(&allow_all(), "127.0.0.1", &version_wire(PROTO_3_2), true);
    assert_eq!(out.to_server[0][4..8], PROTO_3_2.to_be_bytes());
    assert_eq!(
        param(&out.to_server[0], "application_name").as_deref(),
        Some("modern-driver - 203.0.113.99")
    );
}

#[test]
fn other_versions_are_attributed_but_not_put_to_guardian() {
    let mut wire = version_wire(131072);
    wire.extend_from_slice(&query("DROP TABLE secrets"));
    let out = run(&deny_all(), "127.0.0.1", &wire, true);
    assert_eq!(
        param(&out.to_server[0], "application_name").as_deref(),
        Some("modern-driver - 203.0.113.99")
    );
    assert_eq!(out.to_server[1], query("DROP TABLE secrets"));
}

// ---- statements -------------------------------------------------------------

#[test]
fn a_short_blocked_statement_is_refused() {
    assert_eq!(send_query(&inspecting(vec!["DROP"], vec![]), "DROP TABLE secrets"), None);
}

#[test]
fn padding_past_one_kilobyte_bypasses_every_block_rule() {
    let cfg = inspecting(vec!["DROP"], vec!["secrets"]);
    let padding = " ".repeat(1024);
    let sql = format!("DROP TABLE secrets; --{}", padding);
    assert!(sql.len() + 1 >= 1024, "the padding must clear the threshold");
    assert_eq!(send_query(&cfg, &sql), Some(query(&sql)));
}

#[test]
fn just_under_the_threshold_is_still_inspected() {
    let cfg = inspecting(vec!["DROP"], vec![]);
    let sql = format!("DROP TABLE secrets; --{}", " ".repeat(900));
    assert!(sql.len() + 1 < 1024);
    assert_eq!(send_query(&cfg, &sql), None);
}

#[test]
fn the_threshold_is_exact() {
    let cfg = inspecting(vec!["DROP"], vec![]);
    // The body is the statement and a NUL.
    let sql = format!("DROP{}", " ".repeat(1018));
    assert_eq!(sql.len() + 1, 1023);
    assert_eq!(send_query(&cfg, &sql), None);
    let sql = format!("DROP{}", " ".repeat(1019));
    assert_eq!(sql.len() + 1, 1024);
    assert_eq!(send_query(&cfg, &sql), Some(query(&sql)));
}

#[test]
fn table_matching_catches_a_different_case_spelling() {
    let cfg = inspecting(vec![], vec!["secrets"]);
    assert_eq!(send_query(&cfg, "SELECT * FROM SECRETS"), None);
}

#[test]
fn a_table_with_a_shared_prefix_is_not_blocked() {
    let cfg = inspecting(vec![], vec!["secrets"]);
    assert!(send_query(&cfg, "SELECT * FROM secrets_backup").is_some());
}

#[test]
fn a_keyword_inside_an_identifier_is_not_blocked() {
    let cfg = inspecting(vec!["DROP"], vec![]);
    assert!(send_query(&cfg, "SELECT * FROM eavesdropping").is_some());
}

#[test]
fn a_keyword_in_a_comment_is_still_blocked() {
    let cfg = inspecting(vec!["DROP"], vec![]);
    assert_eq!(send_query(&cfg, "SELECT 1 -- do not DROP this"), None);
}

fn assert_passes(sql: &str) {
    assert_eq!(
        send_query(&allow_all(), sql),
        Some(query(sql)),
        "the proxy modified a legitimate query"
    );
}

#[test]
fn a_query_mentioning_application_name_is_not_rewritten() {
    assert_passes("SELECT * FROM pg_settings WHERE name = 'application_name' AND setting = 'x'");
}

#[test]
fn set_config_call_is_not_rewritten() {
    assert_passes("SELECT set_config('application_name', 'reporting', false)");
}

#[test]
fn string_literals_mentioning_the_setting_are_not_rewritten() {
    assert_passes("INSERT INTO audit_log (note) VALUES ('changed application_name to ''x''')");
}

#[test]
fn a_client_set_reaches_postgres_unchanged() {
    assert_passes("SET application_name = 'whatever-the-client-wants'");
}

#[test]
fn reset_application_name_reaches_postgres_unchanged() {
    assert_passes("RESET application_name");
}

#[test]
fn parse_messages_are_forwarded_intact() {
    let mut payload = Vec::new();
    payload.extend_from_slice(b"stmt1\0");
    payload.extend_from_slice(b"SET application_name = 'from-jdbc'\0");
    payload.extend_from_slice(&1u16.to_be_bytes());
    payload.extend_from_slice(&25u32.to_be_bytes());
    let mut msg = vec![b'P'];
    msg.extend_from_slice(&((payload.len() + 4) as u32).to_be_bytes());
    msg.extend_from_slice(&payload);
    let out = run(&allow_all(), "127.0.0.1", &session_wire(&[msg.clone()]), true);
    assert_eq!(out.to_server[1][0], b'P');
    assert_eq!(out.to_server[1], msg, "the proxy modified a Parse message");
}

#[test]
fn large_queries_are_forwarded_intact() {
    assert_passes(&format!("SELECT 1 -- {}", "x".repeat(2000)));
}

#[test]
fn a_blocked_statement_leaves_the_connection_usable() {
    let cfg = inspecting(vec!["DROP"], vec![]);
    let sync = vec![b'S', 0, 0, 0, 4];
    let short = vec![b'Q', 0, 0, 0, 3];
    let wire = session_wire(&[
        query("DROP TABLE a"),
        query("SELECT 1"),
        sync.clone(),
        short.clone(),
        query("drop table b"),
        query("SELECT 2"),
    ]);
    let out = run(&cfg, "127.0.0.1", &wire, true);
    assert_eq!(
        out.to_server[1..],
        [query("SELECT 1"), sync, short, query("SELECT 2")]
    );
    let mut one = make_error_response("Query blocked by PG-Prism Guardian", "42501");
    one.extend_from_slice(b"Z\x00\x00\x00\x05I");
    assert_eq!(out.to_client, [one.clone(), one].concat());
    assert!(!out.closed);
}

#[test]
fn a_blocked_statement_names_the_word() {
    let cfg = inspecting(vec!["create", "drop"], vec!["Secrets", "hr"]);
    let wire = session_wire(&[
        query("SELECT * FROM hr, secrets"),
        query("DROP TABLE secrets"),
        query("SELECT 1"),
    ]);
    let out = run(&cfg, "127.0.0.1", &wire, true);
    assert_eq!(out.words.len(), 2);
    assert!(matches!(&out.words[0], Some(BlockedWord::Table(w)) if w == b"Secrets"));
    assert!(matches!(&out.words[1], Some(BlockedWord::Command(w)) if w == b"DROP"));
}

#[test]
fn a_session_knows_nothing_of_a_connection_that_was_not_judged() {
    let session = Session::new();
    assert!(session.context().is_none());
    assert_eq!(session.rule(), None);
    assert!(session.payload().is_empty());
}
