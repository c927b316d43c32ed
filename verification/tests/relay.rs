use pg_prism::limits::Limits;
use pg_prism::relay::{relay_step, RelayEvent, RelayState, RelayStep};
use pg_prism::server::{listen_address, next_backoff, upstream_address};
use pg_prism::tls::{after_run, ensure_ssl_certificates, first_run, ssl_enabled, RunOutcome};

#[test]
fn client_disconnect_closes_the_upstream_connection() {
    let l = Limits::default();
    assert_eq!(
        relay_step(RelayState::Open, RelayEvent::ClientEof, &l),
        (RelayState::ClientFinished, RelayStep::FinishServer)
    );
    assert_eq!(
        relay_step(RelayState::ClientFinished, RelayEvent::ServerEof, &l),
        (RelayState::Closed, RelayStep::Close)
    );
}

#[test]
fn backend_disconnect_closes_the_client_connection() {
    let l = Limits::default();
    assert_eq!(
        relay_step(RelayState::Open, RelayEvent::ServerEof, &l),
        (RelayState::ServerFinished, RelayStep::FinishClient(l.drain_timeout))
    );
    for event in [RelayEvent::ClientEof, RelayEvent::DrainElapsed] {
        assert_eq!(
            relay_step(RelayState::ServerFinished, event, &l),
            (RelayState::Closed, RelayStep::Close)
        );
    }
}

#[test]
fn a_half_closed_client_still_receives_pending_responses() {
    let l = Limits::default();
    for event in [RelayEvent::ClientEof, RelayEvent::DrainElapsed] {
        assert_eq!(
            relay_step(RelayState::ClientFinished, event, &l),
            (RelayState::ClientFinished, RelayStep::Continue)
        );
    }
    assert_eq!(
        relay_step(RelayState::Closed, RelayEvent::ClientEof, &l),
        (RelayState::Closed, RelayStep::Close)
    );
}

#[test]
fn ssl_enabled_accepts_only_one_spelling_of_yes() {
    let tls_on = |raw: &str| ssl_enabled(Some(raw));

    assert!(tls_on("true"));
    assert!(tls_on("TRUE"), "case is folded");

    for raw in ["1", "yes", "on", "y", " true", "true ", "flase"] {
        assert!(
            !tls_on(raw),
            "SSL_ENABLED={:?} silently disables TLS",
            raw
        );
    }
}

#[test]
fn tls_is_on_by_default() {
    assert!(ssl_enabled(None));
    assert!(ssl_enabled(Some("tRuE")));
    assert!(!ssl_enabled(Some("")));
}

#[test]
fn a_certificate_is_made_only_where_there_is_none() {
    assert!(ensure_ssl_certificates(true).is_empty());
    let steps = ensure_ssl_certificates(false);
    assert_eq!(steps.len(), 2);
    assert_eq!(
        steps[0].args.join(" "),
        "req -new -newkey rsa:2048 -days 365 -nodes -x509 -keyout server.key -out server.crt \
         -subj /CN=localhost"
    );
    assert_eq!(
        steps[1].args.join(" "),
        "pkcs12 -export -out identity.p12 -inkey server.key -in server.crt \
         -passout pass:mypassword"
    );
    assert_eq!(steps[1].failure, "Failed to export pkcs12 archive");
}

#[test]
fn the_archive_is_made_only_if_the_certificate_was() {
    let none = ensure_ssl_certificates(true);
    assert_eq!(first_run(&none), None);
    let steps = ensure_ssl_certificates(false);
    assert_eq!(first_run(&steps), Some(0));
    assert_eq!(after_run(&steps, 0, RunOutcome::Succeeded), Ok(Some(1)));
    assert_eq!(after_run(&steps, 1, RunOutcome::Succeeded), Ok(None));
    assert_eq!(
        after_run(&steps, 0, RunOutcome::Failed),
        Err("Failed to generate private key and certificate using openssl".to_string())
    );
    assert_eq!(
        after_run(&steps, 1, RunOutcome::Failed),
        Err("Failed to export pkcs12 archive".to_string())
    );
    assert_eq!(
        after_run(&steps, 0, RunOutcome::NotStarted("no such file".to_string())),
        Err("no such file".to_string())
    );
}

#[test]
fn the_pause_doubles_up_to_a_second() {
    let mut pause = 0;
    let mut seen = Vec::new();
    for _ in 0..10 {
        pause = next_backoff(pause);
        seen.push(pause);
    }
    assert_eq!(seen, vec![10, 20, 40, 80, 160, 320, 640, 1000, 1000, 1000]);
    assert_eq!(next_backoff(u64::MAX), 1000);
    assert_eq!(next_backoff(1), 2);
}

#[test]
fn addresses_come_from_settings_or_defaults() {
    assert_eq!(listen_address(None, None), "0.0.0.0:5433");
    assert_eq!(listen_address(Some("::1"), Some("7")), "::1:7");
    assert_eq!(upstream_address(None, None), "localhost:5432");
    assert_eq!(upstream_address(Some("db"), None), "db:5432");
    assert_eq!(upstream_address(None, Some("6432")), "localhost:6432");
}
