use pg_prism::protocol::{
    extract_user_db, format_application_name, inject_ip_startup, make_error_response,
    make_startup_packet, read_wire_number, truncate_on_char_boundary, CANCEL_REQUEST,
    NAMEDATALEN_LIMIT, STARTUP_MESSAGE,
};

// ---- format_application_name ----------------------------------------------

#[test]
fn truncation_never_panics_regardless_of_boundary_alignment() {
    for ch in ["é", "ğ", "→", "🔥"] {
        let name = ch.repeat(60);
        for ip_len in 7..=45 {
            let ip = "1".repeat(ip_len);
            let out = format_application_name(&name, &ip);
            assert!(
                out.len() <= 63,
                "{:?} + {}-byte ip produced {} bytes",
                ch,
                ip_len,
                out.len()
            );
        }
    }
}

#[test]
fn output_never_exceeds_the_namedatalen_limit() {
    for name_len in 0..200 {
        let name = "a".repeat(name_len);
        let out = format_application_name(&name, "192.168.100.200");
        assert!(
            out.len() <= 63,
            "{} bytes for name_len {}",
            out.len(),
            name_len
        );
    }
}

#[test]
fn short_names_keep_the_whole_suffix() {
    assert_eq!(
        format_application_name("DBeaver", "192.168.1.50"),
        "DBeaver - 192.168.1.50"
    );
}

#[test]
fn ascii_truncation_keeps_the_ip_intact() {
    let out = format_application_name(&"x".repeat(200), "10.0.0.1");
    assert!(out.ends_with(" - 10.0.0.1"), "got {:?}", out);
    assert_eq!(out.len(), 63);
}

#[test]
fn multibyte_truncation_keeps_the_ip_intact() {
    let out = format_application_name(&"→".repeat(60), "10.0.0.1");
    assert!(out.ends_with(" - 10.0.0.1"), "got {:?}", out);
}

/// How the server stores a name: printable ASCII as it is, any other byte as
/// four characters.
fn stored(name: &str) -> usize {
    name.bytes()
        .map(|b| if (32..=126).contains(&b) { 1 } else { 4 })
        .sum()
}

#[test]
fn multibyte_application_name_survives_truncation() {
    let long_name = "çalışan".repeat(12);
    let out = format_application_name(&long_name, "203.0.113.99");
    assert!(stored(&out) <= 63, "{} stored", stored(&out));
    assert!(out.ends_with("203.0.113.99"), "got {:?}", out);
    // 48 characters are left for the name: "çalışan" takes 8 + 1 + 1 + 8 + 8 + 1 + 1.
    assert_eq!(out, "çalışançalı - 203.0.113.99");
}

#[test]
fn an_address_too_long_for_the_limit_is_cut() {
    let ip = "1".repeat(100);
    let out = format_application_name("name", &ip);
    assert_eq!(out, format!(" - {}", "1".repeat(60)));
    let exact = "1".repeat(60);
    assert_eq!(
        format_application_name("name", &exact),
        format!(" - {}", exact)
    );
    assert_eq!(format_application_name("", &exact), format!(" - {}", exact));
}

#[test]
fn truncation_counts_what_the_server_stores() {
    assert_eq!(NAMEDATALEN_LIMIT, 63);
    assert_eq!(truncate_on_char_boundary("abc", 2), "ab");
    assert_eq!(truncate_on_char_boundary("abc", 3), "abc");
    assert_eq!(truncate_on_char_boundary("aéb", 8), "a");
    assert_eq!(truncate_on_char_boundary("aéb", 9), "aé");
    assert_eq!(truncate_on_char_boundary("→x", 11), "");
    assert_eq!(truncate_on_char_boundary("→x", 13), "→x");
    assert_eq!(truncate_on_char_boundary("🔥x", 16), "🔥");
    assert_eq!(truncate_on_char_boundary("a\tb", 4), "a");
    assert_eq!(truncate_on_char_boundary("a\tb", 5), "a\t");
    assert_eq!(truncate_on_char_boundary("\u{7f}", 3), "");
}

// ---- inject_ip_startup ------------------------------------------------------

fn payload(params: &[u8]) -> Vec<u8> {
    let mut payload = Vec::new();
    payload.extend_from_slice(&STARTUP_MESSAGE.to_be_bytes());
    payload.extend_from_slice(params);
    payload
}

#[test]
fn injection_does_not_panic_on_empty_payload() {
    let _ = inject_ip_startup(&[], "10.0.0.1");
    assert_eq!(inject_ip_startup(&[], "10.0.0.1"), Vec::<u8>::new());
}

#[test]
fn injection_does_not_panic_on_short_payloads() {
    for n in 0..4 {
        let payload = vec![0u8; n];
        let _ = inject_ip_startup(&payload, "10.0.0.1");
        assert_eq!(inject_ip_startup(&payload, "10.0.0.1"), payload);
    }
}

#[test]
fn injection_does_not_panic_on_cancel_request_shaped_input() {
    assert_eq!(CANCEL_REQUEST, 80877102);
    let mut payload = Vec::new();
    payload.extend_from_slice(&80877102u32.to_be_bytes());
    payload.extend_from_slice(&4242u32.to_be_bytes());
    payload.extend_from_slice(&0xdeadbeefu32.to_be_bytes());
    let _ = inject_ip_startup(&payload, "10.0.0.1");
}

#[test]
fn injection_rewrites_an_existing_application_name() {
    let mut payload = Vec::new();
    payload.extend_from_slice(&STARTUP_MESSAGE.to_be_bytes());
    payload.extend_from_slice(b"user\0postgres\0application_name\0psql\0\0");
    let out = inject_ip_startup(&payload, "10.0.0.1");
    let text = String::from_utf8_lossy(&out);
    assert!(text.contains("psql - 10.0.0.1"), "got {:?}", text);
}

#[test]
fn injection_keeps_everything_else() {
    let before = payload(b"user\0alice\0application_name\0psql\0options\0-c a=1\0\0");
    let out = inject_ip_startup(&before, "10.0.0.1");
    assert_eq!(
        out,
        payload(b"user\0alice\0application_name\0psql - 10.0.0.1\0options\0-c a=1\0\0")
    );
    assert_eq!(extract_user_db(&out), extract_user_db(&before));
}

#[test]
fn absent_application_name_is_added() {
    let out = inject_ip_startup(&payload(b"user\0alice\0\0"), "203.0.113.99");
    assert_eq!(
        out,
        payload(b"user\0alice\0application_name\0 - 203.0.113.99\0\0")
    );
}

#[test]
fn the_added_name_is_the_suffix_alone() {
    assert_eq!(
        inject_ip_startup(b"\0\x03\0\0user\0bob\0\0", "10.0.0.1"),
        b"\0\x03\0\0user\0bob\0application_name\0 - 10.0.0.1\0\0".to_vec()
    );
}

#[test]
fn every_application_name_is_rewritten() {
    let out = inject_ip_startup(
        &payload(b"application_name\0a\0application_name\0b\0\0"),
        "1.2.3.4",
    );
    assert_eq!(
        out,
        payload(b"application_name\0a - 1.2.3.4\0application_name\0b - 1.2.3.4\0\0")
    );
}

#[test]
fn nameless_parameters_and_a_value_without_a_name_are_dropped() {
    // The empty name takes the value behind it with it.
    let out = inject_ip_startup(&payload(b"\0lost\0user\0alice\0odd\0"), "1.2.3.4");
    assert_eq!(out, payload(b"user\0alice\0application_name\0 - 1.2.3.4\0\0"));
    // No closing NUL at all.
    let out = inject_ip_startup(&payload(b"user\0alice"), "1.2.3.4");
    assert_eq!(out, payload(b"user\0alice\0application_name\0 - 1.2.3.4\0\0"));
    // Nothing but the version.
    let out = inject_ip_startup(&payload(b""), "1.2.3.4");
    assert_eq!(out, payload(b"application_name\0 - 1.2.3.4\0\0"));
}

#[test]
fn an_application_name_that_is_not_utf8_is_decoded() {
    let out = inject_ip_startup(&payload(b"application_name\0a\xffb\0\0"), "1.2.3.4");
    assert_eq!(
        out,
        payload("application_name\0a\u{fffd}b - 1.2.3.4\0\0".as_bytes())
    );
}

#[test]
fn other_parameters_keep_bytes_that_are_not_utf8() {
    let out = inject_ip_startup(
        &payload(b"x\xfe\0\xff\xfe\0application_name\0a\0\0"),
        "1.2.3.4",
    );
    assert_eq!(
        out,
        payload(b"x\xfe\0\xff\xfe\0application_name\0a - 1.2.3.4\0\0")
    );
}

// ---- extract_user_db --------------------------------------------------------

#[test]
fn extract_does_not_panic_on_short_payloads() {
    for n in 0..4 {
        let payload = vec![0u8; n];
        let _ = extract_user_db(&payload);
        assert_eq!(extract_user_db(&payload), (String::new(), String::new()));
    }
}

#[test]
fn extract_reads_user_and_database() {
    let mut payload = Vec::new();
    payload.extend_from_slice(&STARTUP_MESSAGE.to_be_bytes());
    payload.extend_from_slice(b"user\0alice\0database\0shop\0\0");
    assert_eq!(
        extract_user_db(&payload),
        ("alice".to_string(), "shop".to_string())
    );
}

#[test]
fn extract_defaults_database_to_user() {
    let mut payload = Vec::new();
    payload.extend_from_slice(&STARTUP_MESSAGE.to_be_bytes());
    payload.extend_from_slice(b"user\0alice\0\0");
    assert_eq!(
        extract_user_db(&payload),
        ("alice".to_string(), "alice".to_string())
    );
}

#[test]
fn extract_takes_the_last_of_several_and_decodes_it() {
    assert_eq!(
        extract_user_db(&payload(
            b"user\0a\0user\0b\xff\0database\0x\0database\0\0\0"
        )),
        ("b\u{fffd}".to_string(), "b\u{fffd}".to_string())
    );
    assert_eq!(
        extract_user_db(&payload("user\0é\0database\0ü\0\0".as_bytes())),
        ("é".to_string(), "ü".to_string())
    );
}

// ---- framing ----------------------------------------------------------------

#[test]
fn an_error_response_has_all_its_fields() {
    assert_eq!(
        make_error_response("no", "28000"),
        b"E\x00\x00\x00\x1eSERROR\0VERROR\0C28000\0Mno\0\0".to_vec()
    );
}

#[test]
fn the_length_word_counts_itself() {
    let packet = make_error_response("a message", "42501");
    assert_eq!(packet[0], b'E');
    assert_eq!(
        read_wire_number(&packet[1..5]) as usize,
        packet.len() - 1
    );
    assert_eq!(make_startup_packet(b"abc"), b"\x00\x00\x00\x07abc".to_vec());
    assert_eq!(read_wire_number(&[0x12, 0x34, 0x56, 0x78]), 0x12345678);
}
