//! The listener: where it listens, where it forwards, and how it goes on when it
//! cannot accept.

use crate::text;
use vstd::prelude::*;
use vstd::string::*;

verus! {

/// The first pause after a failure to accept, in milliseconds.
pub const ACCEPT_BACKOFF_MIN: u64 = 10;

/// Backoff ceiling for a listener that keeps failing to accept, in milliseconds.
pub const ACCEPT_BACKOFF_MAX: u64 = 1000;

/// The pause after one more failure to accept.
pub open spec fn backoff_after(pause: nat) -> nat {
    if pause == 0 {
        ACCEPT_BACKOFF_MIN as nat
    } else if 2 * pause < ACCEPT_BACKOFF_MAX {
        2 * pause
    } else {
        ACCEPT_BACKOFF_MAX as nat
    }
}

/// How long to pause, in milliseconds, after a failure to accept. Running out of
/// file descriptors is transient: the pause doubles with each failure in a row,
/// up to a ceiling. `pause` is the last pause, zero after a success.
pub fn next_backoff(pause: u64) -> (r: u64)
    ensures
        r == backoff_after(pause as nat),
{
    if pause == 0 {
        ACCEPT_BACKOFF_MIN
    } else if pause < ACCEPT_BACKOFF_MAX && 2 * pause < ACCEPT_BACKOFF_MAX {
        2 * pause
    } else {
        ACCEPT_BACKOFF_MAX
    }
}

/// The pause after `failures` failures in a row.
pub open spec fn backoff_run(failures: nat) -> nat
    decreases failures,
{
    if failures == 0 {
        0
    } else {
        backoff_after(backoff_run((failures - 1) as nat))
    }
}

/// However often accepting fails, the pause is within its bounds and never
/// shorter than the last.
pub proof fn backoff_is_bounded(failures: nat)
    ensures
        failures > 0 ==> ACCEPT_BACKOFF_MIN <= backoff_run(failures) <= ACCEPT_BACKOFF_MAX,
        backoff_run(failures) <= backoff_run(failures + 1),
    decreases failures,
{
    if failures > 0 {
        backoff_is_bounded((failures - 1) as nat);
    }
}

/// A setting, or its default where it is absent.
pub open spec fn setting_or(value: Option<&str>, default_value: Seq<char>) -> Seq<char> {
    match value {
        Some(v) => v@,
        None => default_value,
    }
}

/// `host:port`, each from its setting or its default.
pub fn endpoint(
    host: Option<&str>,
    port: Option<&str>,
    default_host: &str,
    default_port: &str,
) -> (r: String)
    ensures
        r@ == setting_or(host, default_host@) + ":"@ + setting_or(port, default_port@),
{
    let mut r: String = match host {
        Some(v) => text::joined(v, ":"),
        None => text::joined(default_host, ":"),
    };
    match port {
        Some(v) => r.append(v),
        None => r.append(default_port),
    }
    r
}

/// The address to listen on.
pub fn listen_address(host: Option<&str>, port: Option<&str>) -> (r: String)
    ensures
        r@ == setting_or(host, "0.0.0.0"@) + ":"@ + setting_or(port, "5433"@),
{
    endpoint(host, port, "0.0.0.0", "5433")
}

/// The address of PostgreSQL.
pub fn upstream_address(host: Option<&str>, port: Option<&str>) -> (r: String)
    ensures
        r@ == setting_or(host, "localhost"@) + ":"@ + setting_or(port, "5432"@),
{
    endpoint(host, port, "localhost", "5432")
}

} // verus!
