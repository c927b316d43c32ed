//! Bounds on anything a client controls.

use crate::clock::Span;
use crate::settings::Setting;
use crate::text;
use vstd::prelude::*;
use vstd::string::*;

verus! {

/// PostgreSQL's own cap on a startup packet (`MAX_STARTUP_PACKET_LENGTH` in
/// `src/backend/postmaster/postmaster.c`). Matching it means we reject exactly
/// what the server would.
pub const MAX_STARTUP_PACKET_LENGTH: usize = 10000;

/// The shortest meaningful startup-phase packet: a four-byte length followed by
/// a four-byte protocol code. SSLRequest and GSSENCRequest are exactly this.
pub const MIN_STARTUP_PACKET_LENGTH: usize = 8;

/// A PROXY v1 header is at most 107 bytes including CRLF. One extra byte lets us
/// detect an overlong line rather than silently truncating at the limit.
pub const MAX_PROXY_V1_HEADER_LEN: usize = 108;

/// The environment variable for the handshake's deadline, in seconds.
pub const HANDSHAKE_TIMEOUT_VAR: &'static str = "HANDSHAKE_TIMEOUT_SECS";

/// The environment variable for the deadline of a connection to PostgreSQL, in
/// seconds.
pub const UPSTREAM_TIMEOUT_VAR: &'static str = "UPSTREAM_CONNECT_TIMEOUT_SECS";

#[derive(Debug, Clone, Copy)]
pub struct Limits {
    /// Covers the PROXY header, SSL negotiation and the startup message
    /// together. A legitimate client completes all of it in milliseconds.
    pub handshake_timeout: Span,
    /// How long PostgreSQL may take to accept a connection.
    pub upstream_connect_timeout: Span,
    /// How long to wait for a client to react after PostgreSQL has gone and we
    /// have sent it EOF. Nothing it sends after that point can be answered, so
    /// this only bounds a client that ignores the close.
    pub drain_timeout: Span,
    /// The longest startup packet that is accepted, its length word counted.
    pub max_startup_len: usize,
    /// The longest PROXY header that is accepted, its line terminator counted.
    pub max_proxy_header_len: usize,
}

impl Default for Limits {
    fn default() -> (limits: Self)
        ensures
            limits.handshake_timeout@ == 10_000_000_000,
            limits.upstream_connect_timeout@ == 5_000_000_000,
            limits.drain_timeout@ == 10_000_000_000,
            limits.max_startup_len == MAX_STARTUP_PACKET_LENGTH,
            limits.max_proxy_header_len == MAX_PROXY_V1_HEADER_LEN,
    {
        Limits {
            handshake_timeout: Span::from_secs(10),
            upstream_connect_timeout: Span::from_secs(5),
            drain_timeout: Span::from_secs(10),
            max_startup_len: MAX_STARTUP_PACKET_LENGTH,
            max_proxy_header_len: MAX_PROXY_V1_HEADER_LEN,
        }
    }
}

/// What is said of a value that is no whole number.
pub open spec fn not_a_number(name: Seq<char>, shown: Seq<char>) -> Seq<char> {
    name + " must be a whole number of seconds, got "@ + text::quoted(shown)
}

/// The number of seconds that a setting asks for, or what is wrong with it.
pub open spec fn seconds_setting(name: Seq<char>, raw: Seq<char>) -> Result<nat, Seq<char>> {
    match text::whole_number(text::trimmed(raw), u64::MAX as nat) {
        None => Err(not_a_number(name, raw)),
        Some(n) => if n == 0 {
            Err(name + " must be greater than zero"@)
        } else {
            Ok(n)
        },
    }
}

/// A deadline in seconds: the default where the setting is absent, else what it
/// asks for. A value that is no text is an error like any other that is no number.
pub open spec fn deadline_setting(
    name: Seq<char>,
    value: Setting<'_>,
    default_secs: nat,
) -> Result<nat, Seq<char>> {
    match value {
        Setting::Absent => Ok(default_secs),
        Setting::Text(raw) => seconds_setting(name, raw@),
        Setting::NotText(shown) => Err(not_a_number(name, shown@)),
    }
}

fn not_a_number_message(name: &str, shown: &str) -> (e: String)
    ensures
        e@ == not_a_number(name@, shown@),
{
    let mut e: String = text::joined(name, " must be a whole number of seconds, got ");
    e.append(text::quote(shown).as_str());
    e
}

/// Reads a deadline in seconds.
fn deadline(name: &str, value: Setting<'_>, default_secs: u64) -> (r: Result<u64, String>)
    ensures
        match r {
            Ok(n) => deadline_setting(name@, value, default_secs as nat) == Ok::<nat, Seq<char>>(
                n as nat,
            ),
            Err(e) => deadline_setting(name@, value, default_secs as nat) == Err::<nat, Seq<char>>(
                e@,
            ),
        },
{
    match value {
        Setting::Absent => Ok(default_secs),
        Setting::Text(raw) => parse_secs(name, raw),
        Setting::NotText(shown) => Err(not_a_number_message(name, shown)),
    }
}

impl Limits {
    /// The default limits with the two deadlines that the environment gives, in
    /// seconds. Malformed values are an error rather than a silent fallback: a
    /// timeout that quietly reverts to the default is a timeout the operator
    /// thinks they changed.
    pub fn from_env(handshake: Setting<'_>, upstream: Setting<'_>) -> (r: Result<Self, String>)
        ensures
            match (
                deadline_setting(HANDSHAKE_TIMEOUT_VAR@, handshake, 10),
                deadline_setting(UPSTREAM_TIMEOUT_VAR@, upstream, 5),
            ) {
                (Err(text), _) => r matches Err(e) && e@ == text,
                (Ok(_), Err(text)) => r matches Err(e) && e@ == text,
                (Ok(h), Ok(u)) => r matches Ok(limits) && {
                    &&& limits.handshake_timeout@ == h * 1_000_000_000
                    &&& limits.upstream_connect_timeout@ == u * 1_000_000_000
                    &&& limits.drain_timeout@ == 10_000_000_000
                    &&& limits.max_startup_len == MAX_STARTUP_PACKET_LENGTH
                    &&& limits.max_proxy_header_len == MAX_PROXY_V1_HEADER_LEN
                },
            },
    {
        let mut limits: Limits = Limits::default();
        match deadline(HANDSHAKE_TIMEOUT_VAR, handshake, 10) {
            Ok(n) => {
                limits.handshake_timeout = Span::from_secs(n);
            },
            Err(e) => {
                return Err(e);
            },
        }
        match deadline(UPSTREAM_TIMEOUT_VAR, upstream, 5) {
            Ok(n) => {
                limits.upstream_connect_timeout = Span::from_secs(n);
            },
            Err(e) => {
                return Err(e);
            },
        }
        Ok(limits)
    }
}

/// Reads a number of seconds: a whole number, not zero.
pub fn parse_secs(name: &str, raw: &str) -> (r: Result<u64, String>)
    ensures
        match r {
            Ok(n) => seconds_setting(name@, raw@) == Ok::<nat, Seq<char>>(n as nat),
            Err(e) => seconds_setting(name@, raw@) == Err::<nat, Seq<char>>(e@),
        },
{
    let chars: Vec<char> = text::chars_of(raw);
    match text::parse_whole_number(text::trim(chars.as_slice())) {
        None => Err(not_a_number_message(name, raw)),
        Some(n) => {
            if n == 0 {
                Err(text::joined(name, " must be greater than zero"))
            } else {
                Ok(n)
            }
        },
    }
}

/// A deadline that is accepted is never zero.
pub proof fn deadlines_are_never_zero(name: Seq<char>, raw: Seq<char>)
    ensures
        seconds_setting(name, raw) matches Ok(n) ==> n > 0,
{
}

/// The default stands only for an absent setting: one that is set gives the number
/// that it holds, or an error.
pub proof fn malformed_deadlines_never_fall_back(
    name: Seq<char>,
    value: Setting<'_>,
    default_secs: nat,
)
    requires
        !(value is Absent),
    ensures
        deadline_setting(name, value, default_secs) matches Ok(n) ==> (value matches Setting::Text(
            raw,
        ) && text::whole_number(text::trimmed(raw@), u64::MAX as nat) == Some(n)),
{
}

} // verus!
