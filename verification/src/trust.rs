//! Which peers are allowed to speak the PROXY protocol to us.
//!
//! The PROXY header is an assertion by the peer about who *it* is talking to. It
//! carries no authentication, so it is only meaningful when the peer itself is
//! known to be a load balancer we operate.

use crate::clock;
use crate::clock::Span;
use crate::net;
use crate::net::{IpAddress, IpNet};
use crate::settings::Setting;
use crate::text;
use vstd::prelude::*;
use vstd::string::*;

verus! {

/// Loopback only. PG-Prism is a per-host sidecar; the expected deployment has
/// HAProxy on the same machine or in the same pod.
pub const DEFAULT_TRUSTED_PROXIES: &'static str = "127.0.0.0/8,::1/128";

/// The environment variable that holds the allowlist.
pub const ENV_VAR: &'static str = "TRUSTED_PROXIES";

/// Why an allowlist could not be read.
#[derive(Debug)]
pub enum TrustError {
    /// The list names no network.
    Empty,
    /// An entry is neither an address nor a CIDR block.
    BadEntry { entry: String },
}

impl TrustError {
    /// What the error says to an operator.
    pub open spec fn message_text(self) -> Seq<char> {
        match self {
            TrustError::Empty => ENV_VAR@
                + " is set but empty. An empty allowlist trusts nothing and would reject every connection. To trust every peer, which disables spoofing protection entirely, set "@
                + ENV_VAR@ + "=0.0.0.0/0,::/0"@,
            TrustError::BadEntry { entry } => ENV_VAR@
                + " contains an entry that is not an IP address or CIDR block: "@ + text::quoted(
                entry@,
            ),
        }
    }

    /// What the error says to an operator.
    pub fn message(&self) -> (s: String)
        ensures
            s@ == self.message_text(),
    {
        let mut s: String = ENV_VAR.to_owned();
        match self {
            TrustError::Empty => {
                s.append(
                    " is set but empty. An empty allowlist trusts nothing and would reject every connection. To trust every peer, which disables spoofing protection entirely, set ",
                );
                s.append(ENV_VAR);
                s.append("=0.0.0.0/0,::/0");
            },
            TrustError::BadEntry { entry } => {
                s.append(" contains an entry that is not an IP address or CIDR block: ");
                s.append(text::quote(entry.as_str()).as_str());
            },
        }
        s
    }
}

/// The entries among the pieces of a comma-separated list: what is left of each
/// piece without the white space around it, where anything is.
pub open spec fn entries_among(pieces: Seq<Seq<char>>) -> Seq<Seq<char>>
    decreases pieces.len(),
{
    if pieces.len() == 0 {
        Seq::empty()
    } else {
        let front = entries_among(pieces.drop_last());
        let entry = text::trimmed(pieces.last());
        if entry.len() == 0 {
            front
        } else {
            front.push(entry)
        }
    }
}

/// The entries of a comma-separated list.
pub open spec fn entries_of(list: Seq<char>) -> Seq<Seq<char>> {
    entries_among(text::split_on(list, ','))
}

/// Whether every entry is an address or a CIDR block.
pub open spec fn all_networks(entries: Seq<Seq<char>>) -> bool {
    forall|i: int| 0 <= i < entries.len() ==> net::network_of(#[trigger] entries[i]) is Some
}

/// The networks that entries stand for.
pub open spec fn networks_of(entries: Seq<Seq<char>>) -> Seq<IpNet> {
    Seq::new(entries.len(), |i: int| net::network_of(entries[i])->0)
}

/// Whether `entry` is the first that is neither an address nor a CIDR block.
pub open spec fn is_first_bad(entries: Seq<Seq<char>>, entry: Seq<char>) -> bool {
    exists|i: int|
        0 <= i < entries.len() && #[trigger] entries[i] == entry && net::network_of(entry) is None
            && all_networks(entries.take(i))
}

/// The list that a setting asks for; loopback where it is absent.
pub open spec fn list_of(value: Setting<'_>) -> Seq<char> {
    match value {
        Setting::Absent => DEFAULT_TRUSTED_PROXIES@,
        Setting::Text(list) => list@,
        Setting::NotText(shown) => shown@,
    }
}

/// Whether one of the networks covers the peer, in the form in which its address
/// came or in its IPv4 form.
pub open spec fn trusts(networks: Seq<IpNet>, peer: IpAddress) -> bool {
    exists|i: int|
        0 <= i < networks.len() && ((#[trigger] networks[i]).covers(peer) || networks[i].covers(
            net::normalised(peer),
        ))
}

/// The networks whose members may send a PROXY header.
#[derive(Debug)]
pub struct TrustedProxies {
    nets: Vec<IpNet>,
    allowlist: String,
}

impl TrustedProxies {
    /// Every network is well formed.
    #[verifier::type_invariant]
    spec fn well_formed(self) -> bool {
        forall|i: int| 0 <= i < self.nets@.len() ==> (#[trigger] self.nets@[i]).well_formed()
    }

    /// The networks that are trusted.
    pub closed spec fn networks(self) -> Seq<IpNet> {
        self.nets@
    }

    /// The list as it was given.
    pub closed spec fn allowlist_text(self) -> Seq<char> {
        self.allowlist@
    }

    /// Parses a comma-separated list of CIDR blocks or bare IP addresses.
    ///
    /// Fails closed: a single malformed entry is an error rather than a skipped
    /// line, because silently dropping an entry from an allowlist changes who is
    /// trusted without saying so.
    pub fn parse(list: &str) -> (r: Result<Self, TrustError>)
        ensures
            match r {
                Ok(t) => {
                    &&& entries_of(list@).len() > 0
                    &&& all_networks(entries_of(list@))
                    &&& t.networks() == networks_of(entries_of(list@))
                    &&& t.allowlist_text() == text::trimmed(list@)
                },
                Err(TrustError::Empty) => entries_of(list@).len() == 0,
                Err(TrustError::BadEntry { entry }) => is_first_bad(entries_of(list@), entry@),
            },
    {
        let chars: Vec<char> = text::chars_of(list);
        let parts: Vec<&[char]> = text::split_chars(chars.as_slice(), ',');
        let ghost pieces = text::pieces(parts@);
        let ghost entries = entries_of(list@);
        let mut nets: Vec<IpNet> = Vec::new();
        let mut i: usize = 0;
        assert(entries_among(pieces.take(0)) == Seq::<Seq<char>>::empty());
        while i < parts.len()
            invariant
                i <= parts@.len(),
                pieces == text::pieces(parts@),
                entries == entries_among(pieces),
                entries == entries_of(list@),
                all_networks(entries_among(pieces.take(i as int))),
                nets@ == networks_of(entries_among(pieces.take(i as int))),
                forall|j: int| 0 <= j < nets@.len() ==> (#[trigger] nets@[j]).well_formed(),
            decreases parts@.len() - i,
        {
            let entry: &[char] = text::trim(parts[i]);
            let ghost before = entries_among(pieces.take(i as int));
            assert(pieces.take(i + 1).drop_last() == pieces.take(i as int));
            assert(pieces.take(i + 1).last() == parts@[i as int]@);
            if entry.len() > 0 {
                let name: String = text::string_of(entry);
                match net::parse_network(name.as_str()) {
                    Some(n) => {
                        nets.push(n);
                        assert(nets@ == networks_of(before.push(entry@)));
                    },
                    None => {
                        proof {
                            entries_among_prefix(pieces, i + 1);
                            let at = before.len() as int;
                            assert(entries_among(pieces.take(i + 1)) == before.push(entry@));
                            assert(entries[at] == before.push(entry@)[at]);
                            assert(entries.take(at) == before);
                        }
                        return Err(TrustError::BadEntry { entry: name });
                    },
                }
            }
            i = i + 1;
        }
        assert(pieces.take(pieces.len() as int) == pieces);
        if nets.len() == 0 {
            return Err(TrustError::Empty);
        }
        Ok(
            TrustedProxies {
                nets,
                allowlist: text::string_of(text::trim(chars.as_slice())),
            },
        )
    }

    /// The allowlist that the environment gives, or loopback where it gives none.
    /// A value that is no text is no list: it is an error, and not the default.
    pub fn from_env(value: Setting<'_>) -> (r: Result<Self, TrustError>)
        ensures
            match (value, r) {
                (Setting::NotText(shown), Err(TrustError::BadEntry { entry })) => entry@ == shown@,
                (Setting::NotText(_), _) => false,
                (_, Ok(t)) => {
                    &&& entries_of(list_of(value)).len() > 0
                    &&& all_networks(entries_of(list_of(value)))
                    &&& t.networks() == networks_of(entries_of(list_of(value)))
                    &&& t.allowlist_text() == text::trimmed(list_of(value))
                },
                (_, Err(TrustError::Empty)) => entries_of(list_of(value)).len() == 0,
                (_, Err(TrustError::BadEntry { entry })) => is_first_bad(
                    entries_of(list_of(value)),
                    entry@,
                ),
            },
    {
        match value {
            Setting::Absent => Self::parse(DEFAULT_TRUSTED_PROXIES),
            Setting::Text(list) => Self::parse(list),
            Setting::NotText(shown) => Err(TrustError::BadEntry { entry: shown.to_owned() }),
        }
    }

    /// Whether a peer may send a PROXY header.
    pub fn is_trusted(&self, peer: IpAddress) -> (r: bool)
        ensures
            r == trusts(self.networks(), peer),
    {
        proof {
            use_type_invariant(self);
        }
        let plain: IpAddress = net::normalise(peer);
        let mut i: usize = 0;
        while i < self.nets.len()
            invariant
                i <= self.nets@.len(),
                plain == net::normalised(peer),
                forall|j: int| 0 <= j < self.nets@.len() ==> (#[trigger] self.nets@[j]).well_formed(),
                forall|j: int|
                    0 <= j < i ==> !(#[trigger] self.nets@[j]).covers(peer)
                        && !self.nets@[j].covers(plain),
            decreases self.nets@.len() - i,
        {
            if self.nets[i].contains(peer) || self.nets[i].contains(plain) {
                assert(self.networks()[i as int].covers(peer) || self.networks()[i as int].covers(
                    plain,
                ));
                return true;
            }
            i = i + 1;
        }
        false
    }

    /// The list as it was given, without the white space around it.
    pub fn spec(&self) -> (s: &str)
        ensures
            s@ == self.allowlist_text(),
    {
        self.allowlist.as_str()
    }
}

impl Clone for TrustedProxies {
    fn clone(&self) -> (r: Self)
        ensures
            r.networks() == self.networks(),
            r.allowlist_text() == self.allowlist_text(),
    {
        proof {
            use_type_invariant(self);
        }
        let nets: Vec<IpNet> = self.nets.clone();
        assert(nets@ == self.nets@);
        TrustedProxies { nets, allowlist: self.allowlist.clone() }
    }
}

/// The entries among the first pieces are the first entries.
proof fn entries_among_prefix(pieces: Seq<Seq<char>>, n: int)
    requires
        0 <= n <= pieces.len(),
    ensures
        entries_among(pieces.take(n)).len() <= entries_among(pieces).len(),
        entries_among(pieces.take(n)) == entries_among(pieces).take(
            entries_among(pieces.take(n)).len() as int,
        ),
    decreases pieces.len(),
{
    if n == pieces.len() {
        assert(pieces.take(n) == pieces);
        assert(entries_among(pieces).take(entries_among(pieces).len() as int) == entries_among(
            pieces,
        ));
    } else {
        assert(pieces.drop_last().take(n) == pieces.take(n));
        entries_among_prefix(pieces.drop_last(), n);
        let k = entries_among(pieces.take(n)).len() as int;
        assert(entries_among(pieces).take(k) == entries_among(pieces.drop_last()).take(k));
    }
}

/// A malformed entry anywhere in the list makes the whole list an error: an
/// allowlist that parses has an entry for each of its networks, and a network for
/// each of its entries.
pub proof fn an_allowlist_fails_closed(entries: Seq<Seq<char>>, i: int)
    requires
        0 <= i < entries.len(),
        net::network_of(entries[i]) is None,
    ensures
        !all_networks(entries),
        exists|entry: Seq<char>| is_first_bad(entries, entry),
    decreases i,
{
    if all_networks(entries.take(i)) {
        assert(is_first_bad(entries, entries[i]));
    } else {
        let j = choose|j: int|
            0 <= j < entries.take(i).len() && net::network_of(#[trigger] entries.take(i)[j]) is None;
        assert(entries[j] == entries.take(i)[j]);
        an_allowlist_fails_closed(entries, j);
    }
}

/// A peer that is trusted under its IPv4 address is trusted under the IPv6
/// address into which that is mapped.
pub proof fn mapped_peers_are_trusted_alike(networks: Seq<IpNet>, v4: u32)
    requires
        trusts(networks, IpAddress::V4(v4)),
    ensures
        trusts(networks, net::mapped(v4)),
{
    net::normalise_undoes_mapping(v4);
    let i = choose|i: int|
        0 <= i < networks.len() && ((#[trigger] networks[i]).covers(IpAddress::V4(v4))
            || networks[i].covers(net::normalised(IpAddress::V4(v4))));
    assert(networks[i].covers(net::normalised(net::mapped(v4))));
}

/// Where only IPv4 networks are listed, a mapped peer is trusted only if its IPv4
/// address is.
pub proof fn mapped_peers_are_trusted_no_further(networks: Seq<IpNet>, v4: u32)
    requires
        trusts(networks, net::mapped(v4)),
        forall|i: int| 0 <= i < networks.len() ==> (#[trigger] networks[i]).first is V4,
    ensures
        trusts(networks, IpAddress::V4(v4)),
{
    net::normalise_undoes_mapping(v4);
    let i = choose|i: int|
        0 <= i < networks.len() && ((#[trigger] networks[i]).covers(net::mapped(v4))
            || networks[i].covers(net::normalised(net::mapped(v4))));
    assert(networks[i].covers(IpAddress::V4(v4)));
}

// ---- rejected peers -----------------------------------------------------

/// What a rejection log remembers: when it last let an event through, how many
/// events it has swallowed since, and how far apart it keeps the lines. Times are
/// in nanoseconds.
pub struct LogState {
    pub last: Option<nat>,
    pub suppressed: u64,
    pub interval: nat,
}

/// Whether an event at `now` is to be logged: no earlier event was, or the last
/// that was lies at least an interval back.
pub open spec fn is_due(state: LogState, now: nat) -> bool {
    match state.last {
        None => true,
        Some(last) => now >= last + state.interval || state.interval == 0,
    }
}

/// What an event at `now` does to the log, and what the caller is told: how many
/// events were swallowed before this one, or nothing if this one is swallowed.
pub open spec fn log_event(state: LogState, now: nat) -> (LogState, Option<u64>) {
    if is_due(state, now) {
        (LogState { last: Some(now), suppressed: 0, interval: state.interval }, Some(
            state.suppressed,
        ))
    } else {
        (LogState {
            last: state.last,
            suppressed: if state.suppressed == u64::MAX {
                0
            } else {
                (state.suppressed + 1) as u64
            },
            interval: state.interval,
        }, None)
    }
}

/// Rate-limited logging for rejected peers.
///
/// Rejections are attacker-triggerable, so logging one line per rejected
/// connection turns the allowlist into a log amplification vector. This emits at
/// most one line per interval and reports how many it swallowed.
pub struct RejectionLog {
    origin: std::time::Instant,
    last: Option<Span>,
    suppressed: u64,
    interval: Span,
}

impl View for RejectionLog {
    type V = LogState;

    closed spec fn view(&self) -> LogState {
        LogState {
            last: match self.last {
                Some(t) => Some(t@),
                None => None,
            },
            suppressed: self.suppressed,
            interval: self.interval@,
        }
    }
}

impl RejectionLog {
    /// Whether a span is what the log's clock showed.
    pub closed spec fn clock_shows(self, now: Span) -> bool {
        call_ensures(clock::time_since, (&self.origin,), now)
    }

    /// Whether two logs count time from the same moment.
    pub closed spec fn shares_clock(self, other: Self) -> bool {
        self.origin == other.origin
    }

    /// What counts as a reading of a log's clock came out of the call that reads it,
    /// from the moment that the log has counted from since it was made.
    proof fn readings_come_from_the_clock(self, other: Self, now: Span)
        ensures
            self.clock_shows(now) <==> call_ensures(clock::time_since, (&self.origin,), now),
            self.shares_clock(other) <==> self.origin == other.origin,
    {
    }

    /// A log that has let nothing through yet.
    pub fn new(interval: Span) -> (log: Self)
        ensures
            log@ == (LogState { last: None, suppressed: 0, interval: interval@ }),
    {
        RejectionLog { origin: clock::start_clock(), last: None, suppressed: 0, interval }
    }

    /// Returns the number of previously suppressed events if the caller should
    /// log now, or `None` if this event should be swallowed. `now` is the time
    /// since the log was made.
    pub fn should_log_at(&mut self, now: Span) -> (r: Option<u64>)
        ensures
            (final(self)@, r) == log_event(old(self)@, now@),
            final(self).shares_clock(*old(self)),
    {
        let due: bool = match self.last {
            None => true,
            Some(last) => {
                let interval: u128 = self.interval.as_nanos();
                let now_nanos: u128 = now.as_nanos();
                let last_nanos: u128 = last.as_nanos();
                if now_nanos < last_nanos {
                    interval == 0
                } else {
                    now_nanos - last_nanos >= interval
                }
            },
        };
        if due {
            let suppressed: u64 = self.suppressed;
            self.last = Some(now);
            self.suppressed = 0;
            Some(suppressed)
        } else {
            self.suppressed = self.suppressed.wrapping_add(1);
            None
        }
    }

    /// Returns the number of previously suppressed events if the caller should
    /// log now, or `None` if this event should be swallowed.
    pub fn should_log(&mut self) -> (r: Option<u64>)
        ensures
            exists|now: nat| (final(self)@, r) == #[trigger] log_event(old(self)@, now),
            exists|now: Span| #[trigger]
                old(self).clock_shows(now) && (final(self)@, r) == log_event(old(self)@, now@),
            final(self).shares_clock(*old(self)),
    {
        let now: Span = clock::time_since(&self.origin);
        assert(old(self).clock_shows(now));
        self.should_log_at(now)
    }

    /// How many events have been swallowed since one was last let through.
    pub fn suppressed(&self) -> (n: u64)
        ensures
            n == self@.suppressed,
    {
        self.suppressed
    }
}

impl Default for RejectionLog {
    /// One line every ten seconds.
    fn default() -> (log: Self)
        ensures
            log@ == (LogState { last: None, suppressed: 0, interval: 10_000_000_000 }),
    {
        RejectionLog::new(Span::from_secs(10))
    }
}

/// The state of a log after events at the given times.
pub open spec fn log_after(state: LogState, times: Seq<nat>) -> LogState
    decreases times.len(),
{
    if times.len() == 0 {
        state
    } else {
        log_event(log_after(state, times.drop_last()), times.last()).0
    }
}

/// What the caller is told of the last of the events at the given times.
pub open spec fn told_of_last(state: LogState, times: Seq<nat>) -> Option<u64>
    recommends
        times.len() > 0,
{
    log_event(log_after(state, times.drop_last()), times.last()).1
}

/// How many events the lines for the given times account for: each line stands
/// for its own event and for those that it reports as swallowed.
pub open spec fn accounted_for(state: LogState, times: Seq<nat>) -> nat
    decreases times.len(),
{
    if times.len() == 0 {
        0
    } else {
        accounted_for(state, times.drop_last()) + match told_of_last(state, times) {
            Some(n) => n as nat + 1,
            None => 0,
        }
    }
}

/// No event is lost: those that the lines account for and those still counted as
/// swallowed are all that came.
pub proof fn every_rejection_is_counted(state: LogState, times: Seq<nat>)
    requires
        state.suppressed + times.len() <= u64::MAX,
    ensures
        accounted_for(state, times) + log_after(state, times).suppressed == state.suppressed
            + times.len(),
    decreases times.len(),
{
    if times.len() > 0 {
        every_rejection_is_counted(state, times.drop_last());
    }
}

/// Lines are at least an interval apart, by a clock that does not run backwards.
pub proof fn lines_are_an_interval_apart(state: LogState, times: Seq<nat>, i: int, j: int)
    requires
        0 <= i < j < times.len(),
        forall|a: int, b: int| 0 <= a <= b < times.len() ==> times[a] <= times[b],
        told_of_last(state, times.take(i + 1)) is Some,
        told_of_last(state, times.take(j + 1)) is Some,
    ensures
        times[i] + state.interval <= times[j],
{
    log_after_keeps_last(state, times, i, j);
    let before = log_after(state, times.take(j));
    assert(times.take(j + 1).drop_last() == times.take(j));
    assert(times.take(j + 1).last() == times[j]);
}

/// Once a line has been let through, the log remembers one that is no older.
proof fn log_after_keeps_last(state: LogState, times: Seq<nat>, i: int, j: int)
    requires
        0 <= i < j <= times.len(),
        forall|a: int, b: int| 0 <= a <= b < times.len() ==> times[a] <= times[b],
        told_of_last(state, times.take(i + 1)) is Some,
    ensures
        log_after(state, times.take(j)).last matches Some(t) && t >= times[i],
        log_after(state, times.take(j)).interval == state.interval,
    decreases j,
{
    assert(times.take(j).drop_last() == times.take(j - 1));
    assert(times.take(j).last() == times[j - 1]);
    log_after_keeps_interval(state, times.take(j));
    if j > i + 1 {
        log_after_keeps_last(state, times, i, j - 1);
    }
}

proof fn log_after_keeps_interval(state: LogState, times: Seq<nat>)
    ensures
        log_after(state, times).interval == state.interval,
    decreases times.len(),
{
    if times.len() > 0 {
        log_after_keeps_interval(state, times.drop_last());
    }
}

} // verus!
