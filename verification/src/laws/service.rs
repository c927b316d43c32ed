//! Laws on the settings, the listener, the end of a connection and the certificate.

use crate::clock::{Span, TimeOfDay};
use crate::limits;
use crate::protocol;
use crate::proxy::HandshakeError;
use crate::relay;
use crate::relay::{RelayEvent, RelayState, RelayStep};
use crate::server;
use crate::session;
use crate::settings::Setting;
use crate::text;
use crate::tls;
use crate::tls::{CertificateStep, RunOutcome};
use crate::trust;
use vstd::prelude::*;
use vstd::string::*;

verus! {

// ---- settings -----------------------------------------------------------

/// A deadline is a whole number of seconds, not zero, with white space around it or
/// not; anything else is an error that names the setting.
pub proof fn a_deadline_is_a_number_of_seconds(name: Seq<char>, raw: Seq<char>)
    ensures
        limits::seconds_setting(name, raw) == match text::whole_number(
            text::trimmed(raw),
            0xffff_ffff_ffff_ffff,
        ) {
            Some(n) => if n > 0 {
                Ok::<nat, Seq<char>>(n)
            } else {
                Err::<nat, Seq<char>>(name + " must be greater than zero"@)
            },
            None => Err::<nat, Seq<char>>(
                name + " must be a whole number of seconds, got "@ + text::quoted(raw),
            ),
        },
{
}

/// The default stands for a setting that is absent; one that is there is read, and one
/// that is no text is an error.
pub proof fn a_deadline_that_is_set_is_read(
    name: Seq<char>,
    raw: &str,
    shown: &str,
    default_secs: nat,
)
    ensures
        limits::deadline_setting(name, Setting::Absent, default_secs) == Ok::<nat, Seq<char>>(
            default_secs,
        ),
        limits::deadline_setting(name, Setting::Text(raw), default_secs)
            == limits::seconds_setting(name, raw@),
        limits::deadline_setting(name, Setting::NotText(shown), default_secs) == Err::<
            nat,
            Seq<char>,
        >(name + " must be a whole number of seconds, got "@ + text::quoted(shown@)),
{
}

/// The numbers and names that the protocol and the documentation fix.
pub proof fn the_fixed_numbers_and_names()
    ensures
        limits::MIN_STARTUP_PACKET_LENGTH == 8,
        limits::MAX_STARTUP_PACKET_LENGTH == 10000,
        limits::MAX_PROXY_V1_HEADER_LEN == 108,
        limits::HANDSHAKE_TIMEOUT_VAR@ == "HANDSHAKE_TIMEOUT_SECS"@,
        limits::UPSTREAM_TIMEOUT_VAR@ == "UPSTREAM_CONNECT_TIMEOUT_SECS"@,
        trust::ENV_VAR@ == "TRUSTED_PROXIES"@,
        trust::DEFAULT_TRUSTED_PROXIES@ == "127.0.0.0/8,::1/128"@,
        protocol::SSL_REQUEST == 80877103,
        protocol::GSSENC_REQUEST == 80877104,
        protocol::CANCEL_REQUEST == 80877102,
        protocol::STARTUP_MESSAGE == 196608,
        protocol::NAMEDATALEN_LIMIT == 63,
        session::INSPECTION_LIMIT == 1024,
        session::FRAME_HEADER_LEN == 5,
        server::ACCEPT_BACKOFF_MIN == 10,
        server::ACCEPT_BACKOFF_MAX == 1000,
        tls::CERT_PATH@ == "server.crt"@,
        tls::KEY_PATH@ == "server.key"@,
        tls::ARCHIVE_PATH@ == "identity.p12"@,
        tls::ARCHIVE_PASSWORD@ == "mypassword"@,
{
}

/// A broken protocol is reported by its message.
pub proof fn a_broken_protocol_is_reported_by_its_message(message: String)
    ensures
        HandshakeError::Protocol(message).text() == message@,
{
}

/// A time of day has an hour below 24 and a minute below 60, and counts the minutes
/// from midnight.
pub proof fn a_time_of_day_counts_from_midnight(t: TimeOfDay)
    ensures
        t.well_formed() <==> t.hour < 24 && t.minute < 60,
        t.minutes() == 60 * t.hour + t.minute,
{
}

// ---- the listener -------------------------------------------------------

/// The first pause after a failure to accept is ten milliseconds; each further one is
/// twice as long as the last, but never longer than a second.
pub proof fn the_pause_doubles_up_to_a_second(pause: nat, failures: nat)
    ensures
        server::backoff_after(0) == 10,
        0 < pause <= 500 ==> server::backoff_after(pause) == 2 * pause,
        pause > 500 ==> server::backoff_after(pause) == 1000,
        server::backoff_run(0) == 0,
        server::backoff_run(1) == 10,
        failures > 0 && server::backoff_run(failures) <= 500 ==> server::backoff_run(failures + 1)
            == 2 * server::backoff_run(failures),
        failures > 0 && server::backoff_run(failures) > 500 ==> server::backoff_run(failures + 1)
            == 1000,
{
    server::backoff_is_bounded(failures);
    assert(server::backoff_run(1) == server::backoff_after(server::backoff_run(0)));
}

/// A setting that is there counts, and its default only where it is not.
pub proof fn a_setting_that_is_there_counts(value: &str, default_value: Seq<char>)
    ensures
        server::setting_or(Some(value), default_value) == value@,
        server::setting_or(None, default_value) == default_value,
{
}

// ---- the end of a connection --------------------------------------------

/// The end of what one side sends is passed on to the other side, and the other
/// direction stays open: to PostgreSQL without a limit, to the client for as long as it
/// may take to react.
pub proof fn one_end_is_passed_on(drain: Span)
    ensures
        relay::relay_next(RelayState::Open, RelayEvent::ClientEof, drain) == (
            RelayState::ClientFinished,
            RelayStep::FinishServer,
        ),
        relay::relay_next(RelayState::Open, RelayEvent::ServerEof, drain) == (
            RelayState::ServerFinished,
            RelayStep::FinishClient(drain),
        ),
{
}

/// The connection is closed when the other side ends as well, or when the client has
/// had its time to react to a server that has gone.
pub proof fn the_other_end_closes(drain: Span)
    ensures
        relay::relay_next(RelayState::ClientFinished, RelayEvent::ServerEof, drain) == (
            RelayState::Closed,
            RelayStep::Close,
        ),
        relay::relay_next(RelayState::ServerFinished, RelayEvent::ClientEof, drain) == (
            RelayState::Closed,
            RelayStep::Close,
        ),
        relay::relay_next(RelayState::ServerFinished, RelayEvent::DrainElapsed, drain) == (
            RelayState::Closed,
            RelayStep::Close,
        ),
{
}

/// A connection that is closed stays closed, and nothing else that may be reported
/// changes anything.
pub proof fn nothing_else_changes_a_connection(
    state: RelayState,
    event: RelayEvent,
    drain: Span,
)
    ensures
        relay::relay_next(RelayState::Closed, event, drain) == (
            RelayState::Closed,
            RelayStep::Close,
        ),
        event == RelayEvent::DrainElapsed && (state == RelayState::Open || state
            == RelayState::ClientFinished) ==> relay::relay_next(state, event, drain) == (
            state,
            RelayStep::Continue,
        ),
        event == RelayEvent::ClientEof && state == RelayState::ClientFinished
            ==> relay::relay_next(state, event, drain) == (state, RelayStep::Continue),
        event == RelayEvent::ServerEof && state == RelayState::ServerFinished
            ==> relay::relay_next(state, event, drain) == (state, RelayStep::Continue),
{
}

/// A connection begins open, and each event takes it on from where the others left it.
pub proof fn a_connection_goes_on_event_by_event(
    history: Seq<RelayEvent>,
    event: RelayEvent,
    drain: Span,
)
    ensures
        relay::relay_after(Seq::empty(), drain) == RelayState::Open,
        relay::relay_after(history.push(event), drain) == relay::relay_next(
            relay::relay_after(history, drain),
            event,
            drain,
        ).0,
{
    assert(history.push(event).drop_last() == history);
}

// ---- the certificate ----------------------------------------------------

/// What `openssl` is run with to make a key and a certificate, and to archive them.
pub proof fn openssl_is_run_with_these_arguments()
    ensures
        tls::request_args() == seq![
            "req"@,
            "-new"@,
            "-newkey"@,
            "rsa:2048"@,
            "-days"@,
            "365"@,
            "-nodes"@,
            "-x509"@,
            "-keyout"@,
            "server.key"@,
            "-out"@,
            "server.crt"@,
            "-subj"@,
            "/CN=localhost"@,
        ],
        tls::export_args() == seq![
            "pkcs12"@,
            "-export"@,
            "-out"@,
            "identity.p12"@,
            "-inkey"@,
            "server.key"@,
            "-in"@,
            "server.crt"@,
            "-passout"@,
            "pass:mypassword"@,
        ],
{
}

/// A run is complained of exactly where it did not succeed: with the text that is kept
/// for its failure, or with the reason why it could not be started.
pub proof fn a_run_that_fails_is_complained_of(step: CertificateStep, why: String, i: int)
    ensures
        RunOutcome::Succeeded.complaint(step) is None,
        RunOutcome::Failed.complaint(step) == Some(step.failure@),
        RunOutcome::NotStarted(why).complaint(step) == Some(why@),
        step.arg_texts().len() == step.args@.len(),
        0 <= i < step.args@.len() ==> step.arg_texts()[i] == step.args@[i]@,
{
}

} // verus!
