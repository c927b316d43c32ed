//! Guardian: which connections are allowed, and which statements they may send.

use crate::clock;
use crate::clock::TimeOfDay;
use crate::net;
use crate::net::{IpAddress, IpNet};
use crate::search;
use crate::text;
use vstd::prelude::*;
use vstd::slice::*;
use vstd::string::*;
use vstd::utf8::*;

verus! {

/// A ruleset as it is written down.
#[derive(Debug, Clone)]
pub struct GuardianConfig {
    pub rules: Vec<Rule>,
}

/// What to do with the connections that a rule matches. A condition that is
/// absent holds of every connection.
#[derive(Debug, Clone)]
pub struct Rule {
    pub name: String,
    pub action: Action,
    pub ips: Option<Vec<String>>,
    pub users: Option<Vec<String>>,
    pub databases: Option<Vec<String>>,
    pub time_range: Option<String>,
    pub block_queries: Option<Vec<String>>,  // e.g. ["DELETE", "DROP"]
    pub block_tables: Option<Vec<String>>,  // e.g. ["salary", "users"]
}

#[derive(Debug, Clone, Copy, PartialEq, Eq, Structural)]
pub enum Action {
    ALLOW,  // Bypass Query Filter -> Trusted
    INSPECT,  // Apply Query Filter
    DENY,  // Drop Connection
}

/// The rules in force.
#[derive(Debug)]
pub struct Guardian {
    pub rules: Vec<Rule>,
}

/// What was decided of a connection.
pub struct ConnectionContext {
    pub action: Action,
    pub block_queries: Vec<Vec<u8>>,
    pub block_tables: Vec<Vec<u8>>,
}

/// What was decided of a connection: the action, and the words that its
/// statements may not hold.
#[verifier::ext_equal]
pub struct Decision {
    pub action: Action,
    pub block_queries: Seq<Seq<u8>>,
    pub block_tables: Seq<Seq<u8>>,
}

/// Byte strings, seen as sequences.
pub open spec fn byte_strings(v: Seq<Vec<u8>>) -> Seq<Seq<u8>> {
    Seq::new(v.len(), |i: int| v[i]@)
}

impl View for ConnectionContext {
    type V = Decision;

    open spec fn view(&self) -> Decision {
        Decision {
            action: self.action,
            block_queries: byte_strings(self.block_queries@),
            block_tables: byte_strings(self.block_tables@),
        }
    }
}

// ---- times of day -------------------------------------------------------

/// Whether a text is a time of day, `HH:MM`.
pub open spec fn is_time(s: Seq<char>) -> bool {
    &&& s.len() == 5
    &&& s[2] == ':'
    &&& text::all_digits(s.subrange(0, 2))
    &&& text::all_digits(s.subrange(3, 5))
    &&& text::number(s.subrange(0, 2)) < 24
    &&& text::number(s.subrange(3, 5)) < 60
}

/// The minutes from midnight to a time of day.
pub open spec fn minutes_of(s: Seq<char>) -> nat {
    60 * text::number(s.subrange(0, 2)) + text::number(s.subrange(3, 5))
}

/// The two ends of a range, without the white space around them. There are none
/// where either end is not a time of day.
pub open spec fn range_ends(range: Seq<char>) -> Option<(Seq<char>, Seq<char>)> {
    match text::split_once(range, '-') {
        None => None,
        Some((start, end)) => if is_time(text::trimmed(start)) && is_time(text::trimmed(end)) {
            Some((text::trimmed(start), text::trimmed(end)))
        } else {
            None
        },
    }
}

/// Whether `now` lies in `range`, ends included. A range whose end comes before
/// its start wraps around midnight.
pub open spec fn in_range(now: Seq<char>, range: Seq<char>) -> bool {
    match range_ends(range) {
        None => false,
        Some((start, end)) => if text::text_le(start, end) {
            text::text_le(start, now) && text::text_le(now, end)
        } else {
            text::text_le(start, now) || text::text_le(now, end)
        },
    }
}

fn two_digits_below(s: &[char], at: usize, bound: u32) -> (r: bool)
    requires
        at + 2 <= s@.len(),
    ensures
        r == (text::all_digits(s@.subrange(at as int, at + 2)) && text::number(
            s@.subrange(at as int, at + 2),
        ) < bound),
{
    let a: char = s[at];
    let b: char = s[at + 1];
    let ghost pair = s@.subrange(at as int, at + 2);
    assert(pair[0] == a && pair[1] == b);
    if a < '0' || a > '9' || b < '0' || b > '9' {
        return false;
    }
    assert(pair == seq![a, b]);
    proof {
        two_digit_number(a, b);
    }
    (a as u32 - 48) * 10 + (b as u32 - 48) < bound
}

proof fn two_digit_number(a: char, b: char)
    requires
        text::is_digit(a),
        text::is_digit(b),
    ensures
        text::all_digits(seq![a, b]),
        text::number(seq![a, b]) == (a as nat - 48) * 10 + (b as nat - 48),
{
    let pair = seq![a, b];
    assert(pair.drop_last() == seq![a]);
    assert(pair.drop_last().drop_last() == Seq::<char>::empty());
    reveal_with_fuel(text::number, 3);
}

/// Whether a text is a time of day, `HH:MM`.
pub fn is_hhmm(s: &str) -> (r: bool)
    ensures
        r == is_time(s@),
{
    let chars: Vec<char> = text::chars_of(s);
    is_hhmm_chars(chars.as_slice())
}

fn is_hhmm_chars(s: &[char]) -> (r: bool)
    ensures
        r == is_time(s@),
{
    s.len() == 5 && s[2] == ':' && two_digits_below(s, 0, 24) && two_digits_below(s, 3, 60)
}

/// Is `now`, formatted `HH:MM`, inside `range`, formatted `HH:MM-HH:MM`?
///
/// A range whose end is earlier than its start wraps around midnight. A malformed
/// range matches nothing, which for a rule that may carry a DENY is the safer
/// direction to fail.
pub fn time_in_range(now: &str, range: &str) -> (r: bool)
    ensures
        r == in_range(now@, range@),
{
    let now_chars: Vec<char> = text::chars_of(now);
    let chars: Vec<char> = text::chars_of(range);
    match text::find_char(chars.as_slice(), '-') {
        None => false,
        Some(i) => {
            assert(i < chars.len());
            let start: &[char] = text::trim(slice_subrange(chars.as_slice(), 0, i));
            let end: &[char] = text::trim(slice_subrange(chars.as_slice(), i + 1, chars.len()));
            assert(chars@.skip(i + 1) == chars@.subrange(i + 1, chars@.len() as int));
            if !is_hhmm_chars(start) || !is_hhmm_chars(end) {
                return false;
            }
            let after: bool = text::text_at_most(start, now_chars.as_slice());
            let before: bool = text::text_at_most(now_chars.as_slice(), end);
            if text::text_at_most(start, end) {
                after && before
            } else {
                // Wraps midnight: inside if it is after the start or before the end.
                after || before
            }
        },
    }
}

/// A time of day as text, `HH:MM`.
pub open spec fn time_text(t: TimeOfDay) -> Seq<char> {
    seq![
        text::digit((t.hour / 10) as nat),
        text::digit((t.hour % 10) as nat),
        ':',
        text::digit((t.minute / 10) as nat),
        text::digit((t.minute % 10) as nat),
    ]
}

fn push_two_digits(s: &mut String, n: u8)
    requires
        n < 100,
    ensures
        final(s)@ == old(s)@.push(text::digit((n / 10) as nat)).push(text::digit((n % 10) as nat)),
{
    s.push((n / 10 + 48) as char);
    s.push((n % 10 + 48) as char);
}

/// A time of day as text, `HH:MM`.
pub fn format_time(t: TimeOfDay) -> (s: String)
    requires
        t.well_formed(),
    ensures
        s@ == time_text(t),
{
    let mut s: String = String::new();
    push_two_digits(&mut s, t.hour);
    s.push(':');
    push_two_digits(&mut s, t.minute);
    assert(s@ == time_text(t));
    s
}

/// The text of a time of day is one, and stands for its minutes.
pub proof fn time_text_is_a_time(t: TimeOfDay)
    requires
        t.well_formed(),
    ensures
        is_time(time_text(t)),
        minutes_of(time_text(t)) == t.minutes(),
{
    let s = time_text(t);
    let h1 = text::digit((t.hour / 10) as nat);
    let h2 = text::digit((t.hour % 10) as nat);
    let m1 = text::digit((t.minute / 10) as nat);
    let m2 = text::digit((t.minute % 10) as nat);
    assert(s.subrange(0, 2) == seq![h1, h2]);
    assert(s.subrange(3, 5) == seq![m1, m2]);
    two_digit_number(h1, h2);
    two_digit_number(m1, m2);
}

/// The order of texts is the order of times.
pub proof fn time_order(a: Seq<char>, b: Seq<char>)
    requires
        is_time(a),
        is_time(b),
    ensures
        text::text_le(a, b) <==> minutes_of(a) <= minutes_of(b),
{
    let da = a.drop_first();
    let db = b.drop_first();
    assert(a.subrange(0, 2)[0] == a[0] && a.subrange(0, 2)[1] == a[1]);
    assert(b.subrange(0, 2)[0] == b[0] && b.subrange(0, 2)[1] == b[1]);
    assert(a.subrange(3, 5)[0] == a[3] && a.subrange(3, 5)[1] == a[4]);
    assert(b.subrange(3, 5)[0] == b[3] && b.subrange(3, 5)[1] == b[4]);
    assert(a.subrange(0, 2) == seq![a[0], a[1]] && a.subrange(3, 5) == seq![a[3], a[4]]);
    assert(b.subrange(0, 2) == seq![b[0], b[1]] && b.subrange(3, 5) == seq![b[3], b[4]]);
    two_digit_number(a[0], a[1]);
    two_digit_number(a[3], a[4]);
    two_digit_number(b[0], b[1]);
    two_digit_number(b[3], b[4]);
    assert(da.drop_first()[0] == a[2] && db.drop_first()[0] == b[2]);
    assert(da.drop_first().drop_first()[0] == a[3] && db.drop_first().drop_first()[0] == b[3]);
    assert(da.drop_first().drop_first().drop_first()[0] == a[4]);
    assert(db.drop_first().drop_first().drop_first()[0] == b[4]);
    reveal_with_fuel(text::text_le, 6);
}

/// A range that is no range matches nothing.
pub proof fn a_malformed_range_matches_nothing(now: Seq<char>, range: Seq<char>)
    requires
        range_ends(range) is None,
    ensures
        !in_range(now, range),
{
}

/// A range whose start comes no later than its end holds the minutes from the one
/// to the other; any other range holds the minutes from its start to midnight
/// and from midnight to its end.
pub proof fn ranges_wrap_around_midnight(now: TimeOfDay, range: Seq<char>)
    requires
        now.well_formed(),
        range_ends(range) is Some,
    ensures
        ({
            let ends = range_ends(range)->0;
            let start = minutes_of(ends.0);
            let end = minutes_of(ends.1);
            let at = now.minutes();
            in_range(time_text(now), range) <==> if start <= end {
                start <= at <= end
            } else {
                start <= at || at <= end
            }
        }),
{
    let (start, end) = range_ends(range)->0;
    time_text_is_a_time(now);
    time_order(start, end);
    time_order(start, time_text(now));
    time_order(time_text(now), end);
}

// ---- loading ------------------------------------------------------------

/// Why a ruleset could not be loaded.
#[derive(Debug)]
pub enum ConfigError {
    /// The file is present but not valid. This is fatal: a firewall that
    /// silently disables itself on a typo is worse than no firewall, because
    /// the operator believes it is running.
    Invalid { path: String, detail: String },
}

impl ConfigError {
    /// What the error says to an operator.
    pub open spec fn message_text(self) -> Seq<char> {
        match self {
            ConfigError::Invalid { path, detail } => "Guardian config "@ + path@
                + " could not be parsed: "@ + detail@
                + ". Refusing to start: continuing would silently run with no rules at all."@,
        }
    }

    /// What the error says to an operator.
    pub fn message(&self) -> (s: String)
        ensures
            s@ == self.message_text(),
    {
        match self {
            ConfigError::Invalid { path, detail } => {
                let mut s: String = text::joined("Guardian config ", path.as_str());
                s.append(" could not be parsed: ");
                s.append(detail.as_str());
                s.append(
                    ". Refusing to start: continuing would silently run with no rules at all.",
                );
                s
            },
        }
    }
}

/// What came of reading a ruleset's file.
pub enum ConfigRead {
    /// There is no such file.
    Missing,
    /// The file is there and holds no ruleset; the text says why.
    Malformed(String),
    /// The ruleset that the file holds.
    Parsed(GuardianConfig),
}

impl Guardian {
    /// Loads a ruleset.
    ///
    /// A missing file means "no rules configured", which is a legitimate way to
    /// run the proxy and yields an empty ruleset. A file that exists but does
    /// not parse is an error, not a warning.
    pub fn load(config_path: &str, read: ConfigRead) -> (r: Result<Self, ConfigError>)
        ensures
            match read {
                ConfigRead::Missing => r matches Ok(g) && g.rules@.len() == 0,
                ConfigRead::Malformed(why) => r matches Err(ConfigError::Invalid { path, detail })
                    && path@ == config_path@ && detail@ == why@,
                ConfigRead::Parsed(config) => r matches Ok(g) && g.rules@ == config.rules@,
            },
    {
        match read {
            ConfigRead::Missing => Ok(Guardian { rules: Vec::new() }),
            ConfigRead::Malformed(detail) => Err(
                ConfigError::Invalid { path: config_path.to_owned(), detail },
            ),
            ConfigRead::Parsed(config) => Ok(Guardian { rules: config.rules }),
        }
    }
}

/// Whether one of the entries is a network of the given family.
pub open spec fn lists_family(entries: Seq<String>, v4: bool) -> bool {
    exists|i: int|
        0 <= i < entries.len() && (net::network_of((#[trigger] entries[i])@) matches Some(n)
            && n.first is V4 == v4)
}

/// What there is to say of a rule whose address list cannot match some clients.
pub open spec fn rule_warning(rule: Rule) -> Option<Seq<char>> {
    match rule.ips {
        None => None,
        Some(ips) => {
            let v4 = lists_family(ips@, true);
            let v6 = lists_family(ips@, false);
            if !v4 && !v6 {
                Some(
                    "Guardian rule '"@ + rule.name@
                        + "' lists addresses but none of them parse as CIDR blocks; the rule can never match."@,
                )
            } else if v4 && !v6 {
                Some(
                    "Guardian rule '"@ + rule.name@
                        + "' lists only IPv4 addresses, so it will not match IPv6 clients. Note that 0.0.0.0/0 is the IPv4 default route, not a catch-all: omit `ips` entirely to match any address, or add ::/0 alongside it."@,
                )
            } else if v6 && !v4 {
                Some(
                    "Guardian rule '"@ + rule.name@
                        + "' lists only IPv6 addresses, so it will not match IPv4 clients."@,
                )
            } else {
                None
            }
        },
    }
}

/// The warnings for rules, in the order of the rules.
pub open spec fn rule_warnings(rules: Seq<Rule>) -> Seq<Seq<char>>
    decreases rules.len(),
{
    if rules.len() == 0 {
        Seq::empty()
    } else {
        let front = rule_warnings(rules.drop_last());
        match rule_warning(rules.last()) {
            Some(w) => front.push(w),
            None => front,
        }
    }
}

/// Strings, seen as sequences.
pub open spec fn texts(v: Seq<String>) -> Seq<Seq<char>> {
    Seq::new(v.len(), |i: int| v[i]@)
}

/// Whether the list names a network of the IPv4 family, and whether one of the
/// IPv6 family.
fn listed_families(ips: &Vec<String>) -> (r: (bool, bool))
    ensures
        r.0 == lists_family(ips@, true),
        r.1 == lists_family(ips@, false),
{
    let mut v4: bool = false;
    let mut v6: bool = false;
    let mut i: usize = 0;
    while i < ips.len()
        invariant
            i <= ips@.len(),
            v4 == lists_family(ips@.take(i as int), true),
            v6 == lists_family(ips@.take(i as int), false),
        decreases ips@.len() - i,
    {
        let network: Option<IpNet> = net::parse_network(ips[i].as_str());
        let ghost before = ips@.take(i as int);
        let ghost after = ips@.take(i + 1);
        proof {
            lists_family_push(before, ips@[i as int], true);
            lists_family_push(before, ips@[i as int], false);
            assert(after == before.push(ips@[i as int]));
        }
        if let Some(n) = network {
            match n.first {
                IpAddress::V4(_) => {
                    v4 = true;
                },
                IpAddress::V6(_) => {
                    v6 = true;
                },
            }
        }
        i = i + 1;
    }
    assert(ips@.take(ips@.len() as int) == ips@);
    (v4, v6)
}

proof fn lists_family_push(entries: Seq<String>, entry: String, v4: bool)
    ensures
        lists_family(entries.push(entry), v4) == (lists_family(entries, v4) || (net::network_of(
            entry@,
        ) matches Some(n) && n.first is V4 == v4)),
{
    let all = entries.push(entry);
    if lists_family(entries, v4) {
        let i = choose|i: int|
            0 <= i < entries.len() && (net::network_of((#[trigger] entries[i])@) matches Some(n)
                && n.first is V4 == v4);
        assert(all[i] == entries[i]);
    }
    assert(all[entries.len() as int] == entry);
    if lists_family(all, v4) {
        let i = choose|i: int|
            0 <= i < all.len() && (net::network_of((#[trigger] all[i])@) matches Some(n)
                && n.first is V4 == v4);
        if i < entries.len() {
            assert(entries[i] == all[i]);
        }
    }
}

impl Guardian {
    /// Flags rules whose address list cannot match some clients.
    ///
    /// `0.0.0.0/0` is the IPv4 default route, not a catch-all: it does not match
    /// an IPv6 client, so a rule written that way silently stops applying the
    /// moment somebody connects over IPv6. Rather than quietly redefining CIDR
    /// semantics, say so at startup.
    pub fn warn_about_unreachable_rules(&self) -> (warnings: Vec<String>)
        ensures
            texts(warnings@) == rule_warnings(self.rules@),
    {
        let mut warnings: Vec<String> = Vec::new();
        let mut i: usize = 0;
        assert(texts(warnings@) == rule_warnings(self.rules@.take(0)));
        while i < self.rules.len()
            invariant
                i <= self.rules@.len(),
                texts(warnings@) == rule_warnings(self.rules@.take(i as int)),
            decreases self.rules@.len() - i,
        {
            assert(self.rules@.take(i + 1).drop_last() == self.rules@.take(i as int));
            let ghost before = texts(warnings@);
            match unreachable_rule(&self.rules[i]) {
                Some(w) => {
                    warnings.push(w);
                    assert(texts(warnings@) == before.push(w@));
                },
                None => {},
            }
            i = i + 1;
        }
        assert(self.rules@.take(self.rules@.len() as int) == self.rules@);
        warnings
    }
}

fn unreachable_rule(rule: &Rule) -> (w: Option<String>)
    ensures
        match w {
            Some(s) => rule_warning(*rule) == Some(s@),
            None => rule_warning(*rule) is None,
        },
{
    match &rule.ips {
        None => None,
        Some(ips) => {
            let (v4, v6) = listed_families(ips);
            let mut s: String = text::joined("Guardian rule '", rule.name.as_str());
            if !v4 && !v6 {
                s.append(
                    "' lists addresses but none of them parse as CIDR blocks; the rule can never match.",
                );
                Some(s)
            } else if v4 && !v6 {
                s.append(
                    "' lists only IPv4 addresses, so it will not match IPv6 clients. Note that 0.0.0.0/0 is the IPv4 default route, not a catch-all: omit `ips` entirely to match any address, or add ::/0 alongside it.",
                );
                Some(s)
            } else if v6 && !v4 {
                s.append("' lists only IPv6 addresses, so it will not match IPv4 clients.");
                Some(s)
            } else {
                None
            }
        },
    }
}

// ---- connections --------------------------------------------------------

/// Whether one of the entries is a network that covers the address. An entry that
/// is no network covers nothing.
pub open spec fn covers_address(entries: Seq<String>, address: IpAddress) -> bool {
    exists|i: int|
        0 <= i < entries.len() && (net::network_of((#[trigger] entries[i])@) matches Some(n)
            && n.covers(address))
}

/// Whether a rule applies to a connection.
pub open spec fn applies(
    rule: Rule,
    address: IpAddress,
    user: Seq<char>,
    db: Seq<char>,
    now: TimeOfDay,
) -> bool {
    &&& rule.ips matches Some(ips) ==> covers_address(ips@, address)
    &&& rule.users matches Some(users) ==> texts(users@).contains(user)
    &&& rule.databases matches Some(dbs) ==> texts(dbs@).contains(db)
    &&& rule.time_range matches Some(range) ==> in_range(time_text(now), range@)
}

/// The first rule that applies.
pub open spec fn first_applicable(
    rules: Seq<Rule>,
    address: IpAddress,
    user: Seq<char>,
    db: Seq<char>,
    now: TimeOfDay,
) -> Option<Rule>
    decreases rules.len(),
{
    if rules.len() == 0 {
        None
    } else if applies(rules[0], address, user, db, now) {
        Some(rules[0])
    } else {
        first_applicable(rules.drop_first(), address, user, db, now)
    }
}

/// The entries of an optional list; an absent list has none.
pub open spec fn listed(list: Option<Vec<String>>) -> Seq<Seq<char>> {
    match list {
        Some(v) => texts(v@),
        None => Seq::empty(),
    }
}

/// Whether the ASCII texts among these have the upper-case form that ASCII gives
/// them.
pub open spec fn upper_as_ascii(list: Seq<Seq<char>>) -> bool {
    forall|i: int|
        0 <= i < list.len() && is_ascii_chars(#[trigger] list[i]) ==> text::uppercase(list[i])
            == list[i].map_values(|c: char| text::ascii_upper(c))
}

/// What a rule decides of the connections to which it applies.
pub open spec fn rule_decision(rule: Rule) -> Decision {
    Decision {
        action: rule.action,
        block_queries: listed(rule.block_queries).map_values(
            |s: Seq<char>| encode_utf8(text::uppercase(s)),
        ),
        block_tables: listed(rule.block_tables).map_values(|s: Seq<char>| encode_utf8(s)),
    }
}

/// A decision that blocks no word.
pub open spec fn plain_decision(action: Action) -> Decision {
    Decision { action, block_queries: Seq::empty(), block_tables: Seq::empty() }
}

/// The rule that decides of a connection at a time of day: the first that applies.
/// There is none where the client's address is none, or where no rule applies.
pub open spec fn deciding_rule(
    rules: Seq<Rule>,
    ip: Seq<char>,
    user: Seq<char>,
    db: Seq<char>,
    now: TimeOfDay,
) -> Option<Rule> {
    match net::address_of(ip) {
        None => None,
        Some(address) => first_applicable(rules, address, user, db, now),
    }
}

/// What the rules decide of a connection at a time of day. What is no address is
/// denied; else the first rule that applies decides, and where none does the
/// connection is inspected with nothing to look for.
pub open spec fn connection_decision(
    rules: Seq<Rule>,
    ip: Seq<char>,
    user: Seq<char>,
    db: Seq<char>,
    now: TimeOfDay,
) -> Decision {
    match deciding_rule(rules, ip, user, db, now) {
        Some(rule) => rule_decision(rule),
        None => plain_decision(
            if net::address_of(ip) is None {
                Action::DENY
            } else {
                Action::INSPECT
            },
        ),
    }
}

/// The name of the rule that decides of a connection.
pub open spec fn deciding_rule_name(
    rules: Seq<Rule>,
    ip: Seq<char>,
    user: Seq<char>,
    db: Seq<char>,
    now: TimeOfDay,
) -> Option<Seq<char>> {
    match deciding_rule(rules, ip, user, db, now) {
        Some(rule) => Some(rule.name@),
        None => None,
    }
}

/// The commands that the rule which decides of a connection blocks.
pub open spec fn applicable_commands(
    rules: Seq<Rule>,
    ip: Seq<char>,
    user: Seq<char>,
    db: Seq<char>,
    now: TimeOfDay,
) -> Seq<Seq<char>> {
    match deciding_rule(rules, ip, user, db, now) {
        Some(rule) => listed(rule.block_queries),
        None => Seq::empty(),
    }
}

/// What was decided of a connection, and by which rule.
pub struct ConnectionMatch {
    pub rule: Option<String>,
    pub context: ConnectionContext,
}

impl ConnectionMatch {
    /// The name of the rule.
    pub open spec fn rule_name(self) -> Option<Seq<char>> {
        match self.rule {
            Some(name) => Some(name@),
            None => None,
        }
    }
}

fn any_covers(ips: &Vec<String>, address: IpAddress) -> (r: bool)
    ensures
        r == covers_address(ips@, address),
{
    let mut i: usize = 0;
    while i < ips.len()
        invariant
            i <= ips@.len(),
            forall|j: int|
                0 <= j < i ==> !(net::network_of((#[trigger] ips@[j])@) matches Some(n)
                    && n.covers(address)),
        decreases ips@.len() - i,
    {
        if let Some(n) = net::parse_network(ips[i].as_str()) {
            if n.contains(address) {
                assert(net::network_of(ips@[i as int]@) == Some(n));
                return true;
            }
        }
        i = i + 1;
    }
    false
}

fn is_listed(list: &Vec<String>, value: &String) -> (r: bool)
    ensures
        r == texts(list@).contains(value@),
{
    let mut i: usize = 0;
    while i < list.len()
        invariant
            i <= list@.len(),
            forall|j: int| 0 <= j < i ==> texts(list@)[j] != value@,
        decreases list@.len() - i,
    {
        if list[i] == *value {
            assert(texts(list@)[i as int] == value@);
            return true;
        }
        assert(texts(list@)[i as int] != value@);
        i = i + 1;
    }
    false
}

fn rule_applies(
    rule: &Rule,
    address: IpAddress,
    user: &String,
    db: &String,
    now: TimeOfDay,
    now_text: &String,
) -> (r: bool)
    requires
        now_text@ == time_text(now),
    ensures
        r == applies(*rule, address, user@, db@, now),
{
    if let Some(ips) = &rule.ips {
        if !any_covers(ips, address) {
            return false;
        }
    }
    if let Some(users) = &rule.users {
        if !is_listed(users, user) {
            return false;
        }
    }
    if let Some(dbs) = &rule.databases {
        if !is_listed(dbs, db) {
            return false;
        }
    }
    if let Some(range) = &rule.time_range {
        if !time_in_range(now_text.as_str(), range.as_str()) {
            return false;
        }
    }
    true
}

/// The bytes that stand for a blocked command: its upper-case form. Matching
/// ignores letter case, so for an ASCII command this changes nothing.
pub fn blocked_command(command: &str) -> (bytes: Vec<u8>)
    ensures
        bytes@ == encode_utf8(text::uppercase(command@)),
        is_ascii_chars(command@) ==> text::uppercase(command@) == command@.map_values(
            |c: char| text::ascii_upper(c),
        ),
        is_ascii_chars(command@) ==> text::folded(bytes@) == text::folded(encode_utf8(command@)),
{
    let upper: String = text::to_uppercase(command);
    let bytes: Vec<u8> = upper.as_str().as_bytes_vec();
    proof {
        if is_ascii_chars(command@) {
            is_ascii_chars_encode_utf8(command@);
            assert(is_ascii_chars(upper@));
            is_ascii_chars_encode_utf8(upper@);
            let plain = encode_utf8(command@);
            assert forall|i: int| 0 <= i < plain.len() implies text::folded(bytes@)[i]
                == text::folded(plain)[i] by {
                let c = command@[i];
                assert(upper@[i] == text::ascii_upper(c));
                assert(plain[i] == c as u8 && bytes@[i] == upper@[i] as u8);
            }
            assert(text::folded(bytes@) == text::folded(plain));
        }
    }
    bytes
}

fn blocked_commands(list: &Option<Vec<String>>) -> (out: Vec<Vec<u8>>)
    ensures
        byte_strings(out@) == listed(*list).map_values(
            |s: Seq<char>| encode_utf8(text::uppercase(s)),
        ),
        upper_as_ascii(listed(*list)),
{
    let mut out: Vec<Vec<u8>> = Vec::new();
    if let Some(v) = list {
        let mut i: usize = 0;
        while i < v.len()
            invariant
                i <= v@.len(),
                out@.len() == i,
                forall|j: int|
                    0 <= j < i ==> (#[trigger] out@[j])@ == encode_utf8(text::uppercase(v@[j]@)),
                upper_as_ascii(texts(v@).take(i as int)),
            decreases v@.len() - i,
        {
            out.push(blocked_command(v[i].as_str()));
            assert(texts(v@).take(i + 1) == texts(v@).take(i as int).push(v@[i as int]@));
            assert forall|j: int|
                0 <= j < i + 1 && is_ascii_chars(#[trigger] texts(v@).take(i + 1)[j]) implies text::uppercase(
                texts(v@).take(i + 1)[j],
            ) == texts(v@).take(i + 1)[j].map_values(|c: char| text::ascii_upper(c)) by {
                if j < i {
                    assert(texts(v@).take(i as int)[j] == texts(v@).take(i + 1)[j]);
                }
            }
            i = i + 1;
        }
        assert(texts(v@).take(v@.len() as int) == texts(v@));
    }
    out
}

fn blocked_tables(list: &Option<Vec<String>>) -> (out: Vec<Vec<u8>>)
    ensures
        byte_strings(out@) == listed(*list).map_values(|s: Seq<char>| encode_utf8(s)),
{
    let mut out: Vec<Vec<u8>> = Vec::new();
    if let Some(v) = list {
        let mut i: usize = 0;
        while i < v.len()
            invariant
                i <= v@.len(),
                out@.len() == i,
                forall|j: int| 0 <= j < i ==> (#[trigger] out@[j])@ == encode_utf8(v@[j]@),
            decreases v@.len() - i,
        {
            out.push(v[i].as_str().as_bytes_vec());
            i = i + 1;
        }
    }
    out
}

impl Guardian {
    /// Decides of a connection at a time of day, and says which rule did.
    pub fn match_connection_at(&self, ip: &str, user: &str, db: &str, now: TimeOfDay) -> (found:
        ConnectionMatch)
        requires
            now.well_formed(),
        ensures
            found.context@ == connection_decision(self.rules@, ip@, user@, db@, now),
            found.rule_name() == deciding_rule_name(self.rules@, ip@, user@, db@, now),
            found.context.action != Action::DENY ==> !ip@.contains('\0'),
            upper_as_ascii(applicable_commands(self.rules@, ip@, user@, db@, now)),
    {
        let address: IpAddress = match net::parse_address(ip) {
            Some(address) => address,
            None => {
                let context: ConnectionContext = ConnectionContext {
                    action: Action::DENY,
                    block_queries: Vec::new(),
                    block_tables: Vec::new(),
                };
                assert(context@ =~= plain_decision(Action::DENY));
                return ConnectionMatch { rule: None, context };
            },
        };
        let own_user: String = user.to_owned();
        let own_db: String = db.to_owned();
        let now_text: String = format_time(now);
        let mut i: usize = 0;
        assert(self.rules@.skip(0) == self.rules@);
        while i < self.rules.len()
            invariant
                i <= self.rules@.len(),
                now_text@ == time_text(now),
                own_user@ == user@,
                own_db@ == db@,
                first_applicable(self.rules@.skip(i as int), address, user@, db@, now)
                    == first_applicable(self.rules@, address, user@, db@, now),
                net::address_of(ip@) == Some(address),
                !ip@.contains('\0'),
            decreases self.rules@.len() - i,
        {
            assert(self.rules@.skip(i as int).drop_first() == self.rules@.skip(i + 1));
            let rule: &Rule = &self.rules[i];
            if rule_applies(rule, address, &own_user, &own_db, now, &now_text) {
                let context: ConnectionContext = ConnectionContext {
                    action: rule.action,
                    block_queries: blocked_commands(&rule.block_queries),
                    block_tables: blocked_tables(&rule.block_tables),
                };
                assert(context@ =~= rule_decision(*rule));
                return ConnectionMatch { rule: Some(rule.name.clone()), context };
            }
            i = i + 1;
        }
        let context: ConnectionContext = ConnectionContext {
            action: Action::INSPECT,
            block_queries: Vec::new(),
            block_tables: Vec::new(),
        };
        assert(context@ =~= plain_decision(Action::INSPECT));
        ConnectionMatch { rule: None, context }
    }

    /// Decides of a connection at a time of day.
    pub fn check_connection_at(&self, ip: &str, user: &str, db: &str, now: TimeOfDay) -> (context:
        ConnectionContext)
        requires
            now.well_formed(),
        ensures
            context@ == connection_decision(self.rules@, ip@, user@, db@, now),
            context.action != Action::DENY ==> !ip@.contains('\0'),
            upper_as_ascii(applicable_commands(self.rules@, ip@, user@, db@, now)),
    {
        self.match_connection_at(ip, user, db, now).context
    }

    /// Decides of a connection that is made now.
    pub fn check_connection(&self, ip: &str, user: &str, db: &str) -> (context: ConnectionContext)
        ensures
            exists|now: TimeOfDay|
                #![trigger now.well_formed()]
                now.well_formed() && context@ == connection_decision(
                    self.rules@,
                    ip@,
                    user@,
                    db@,
                    now,
                ) && upper_as_ascii(applicable_commands(self.rules@, ip@, user@, db@, now))
                    && clock::is_clock_reading(now),
            context.action != Action::DENY ==> !ip@.contains('\0'),
    {
        let now: TimeOfDay = clock::time_of_day();
        self.check_connection_at(ip, user, db, now)
    }
}

// ---- statements ---------------------------------------------------------

/// Whether a statement holds one of the words.
pub open spec fn mentions_any(query: Seq<u8>, words: Seq<Seq<u8>>) -> bool {
    exists|i: int| 0 <= i < words.len() && search::mentions(query, #[trigger] words[i])
}

/// Whether a connection may send a statement.
pub open spec fn permits(query: Seq<u8>, decision: Decision) -> bool {
    match decision.action {
        Action::ALLOW => true,
        Action::DENY => false,
        Action::INSPECT => !mentions_any(query, decision.block_queries) && !mentions_any(
            query,
            decision.block_tables,
        ),
    }
}

/// The first of the words that a statement holds.
pub open spec fn first_mentioned(query: Seq<u8>, words: Seq<Seq<u8>>) -> Option<Seq<u8>>
    decreases words.len(),
{
    if words.len() == 0 {
        None
    } else if search::mentions(query, words[0]) {
        Some(words[0])
    } else {
        first_mentioned(query, words.drop_first())
    }
}

/// A word for which a statement is blocked.
#[derive(Debug)]
pub enum BlockedWord {
    /// From the list of commands.
    Command(Vec<u8>),
    /// From the list of tables.
    Table(Vec<u8>),
}

/// A [`BlockedWord`] over sequences.
pub enum BlockedWordView {
    Command(Seq<u8>),
    Table(Seq<u8>),
}

impl View for BlockedWord {
    type V = BlockedWordView;

    open spec fn view(&self) -> BlockedWordView {
        match *self {
            BlockedWord::Command(word) => BlockedWordView::Command(word@),
            BlockedWord::Table(word) => BlockedWordView::Table(word@),
        }
    }
}

/// The word for which an inspected statement is blocked: the first command that it
/// holds, else the first table. A connection that is allowed or denied outright is
/// not inspected.
pub open spec fn offending_word(query: Seq<u8>, decision: Decision) -> Option<BlockedWordView> {
    if decision.action != Action::INSPECT {
        None
    } else {
        match first_mentioned(query, decision.block_queries) {
            Some(word) => Some(BlockedWordView::Command(word)),
            None => match first_mentioned(query, decision.block_tables) {
                Some(word) => Some(BlockedWordView::Table(word)),
                None => None,
            },
        }
    }
}

/// There is a first word exactly where there is one at all.
proof fn first_mentioned_is_some(query: Seq<u8>, words: Seq<Seq<u8>>)
    ensures
        first_mentioned(query, words) is Some <==> mentions_any(query, words),
    decreases words.len(),
{
    if words.len() > 0 {
        let rest = words.drop_first();
        first_mentioned_is_some(query, rest);
        if mentions_any(query, rest) {
            let i = choose|i: int| 0 <= i < rest.len() && search::mentions(query, #[trigger] rest[i]);
            assert(words[i + 1] == rest[i]);
        }
        if mentions_any(query, words) && !search::mentions(query, words[0]) {
            let i = choose|i: int|
                0 <= i < words.len() && search::mentions(query, #[trigger] words[i]);
            assert(rest[i - 1] == words[i]);
        }
    }
}

/// An inspected statement is blocked exactly where a word can be named for it.
pub proof fn a_blocked_statement_has_an_offending_word(query: Seq<u8>, decision: Decision)
    requires
        decision.action == Action::INSPECT,
    ensures
        permits(query, decision) <==> offending_word(query, decision) is None,
{
    first_mentioned_is_some(query, decision.block_queries);
    first_mentioned_is_some(query, decision.block_tables);
}

fn first_held(query: &[u8], words: &Vec<Vec<u8>>) -> (r: Option<Vec<u8>>)
    ensures
        match r {
            Some(word) => first_mentioned(query@, byte_strings(words@)) == Some(word@),
            None => first_mentioned(query@, byte_strings(words@)) is None,
        },
{
    let mut i: usize = 0;
    let ghost all = byte_strings(words@);
    assert(all.skip(0) == all);
    while i < words.len()
        invariant
            i <= words@.len(),
            all == byte_strings(words@),
            first_mentioned(query@, all.skip(i as int)) == first_mentioned(query@, all),
        decreases words@.len() - i,
    {
        assert(all.skip(i as int)[0] == words@[i as int]@);
        assert(all.skip(i as int).drop_first() == all.skip(i + 1));
        if search::contains_ignore_case_ascii(query, words[i].as_slice()) {
            return Some(slice_to_vec(words[i].as_slice()));
        }
        i = i + 1;
    }
    None
}

impl Guardian {
    /// The word for which an inspected statement is blocked, if it is.
    pub fn find_blocked_word(query: &[u8], context: &ConnectionContext) -> (r: Option<BlockedWord>)
        ensures
            match r {
                Some(word) => offending_word(query@, context@) == Some(word@),
                None => offending_word(query@, context@) is None,
            },
    {
        match context.action {
            Action::INSPECT => match first_held(query, &context.block_queries) {
                Some(word) => Some(BlockedWord::Command(word)),
                None => match first_held(query, &context.block_tables) {
                    Some(word) => Some(BlockedWord::Table(word)),
                    None => None,
                },
            },
            _ => None,
        }
    }

    /// Whether a connection may send a statement.
    pub fn check_query(query: &[u8], context: &ConnectionContext) -> (r: bool)
        ensures
            r == permits(query@, context@),
    {
        match context.action {
            Action::ALLOW => true,
            Action::DENY => false,
            Action::INSPECT => {
                proof {
                    a_blocked_statement_has_an_offending_word(query@, context@);
                }
                Guardian::find_blocked_word(query, context).is_none()
            },
        }
    }
}

// ---- what the rules promise ---------------------------------------------

/// The first rule that applies decides, whatever stands behind it.
pub proof fn the_first_applicable_rule_decides(
    before: Seq<Rule>,
    rule: Rule,
    behind: Seq<Rule>,
    address: IpAddress,
    user: Seq<char>,
    db: Seq<char>,
    now: TimeOfDay,
)
    requires
        forall|i: int|
            0 <= i < before.len() ==> !applies(#[trigger] before[i], address, user, db, now),
        applies(rule, address, user, db, now),
    ensures
        first_applicable(before.push(rule) + behind, address, user, db, now) == Some(rule),
    decreases before.len(),
{
    let rules = before.push(rule) + behind;
    if before.len() > 0 {
        assert(rules[0] == before[0]);
        let rest = before.drop_first();
        assert(rules.drop_first() == rest.push(rule) + behind);
        assert forall|i: int| 0 <= i < rest.len() implies !applies(
            #[trigger] rest[i],
            address,
            user,
            db,
            now,
        ) by {
            assert(rest[i] == before[i + 1]);
        }
        the_first_applicable_rule_decides(rest, rule, behind, address, user, db, now);
    } else {
        assert(rules[0] == rule);
    }
}

/// Where no rule applies, the connection is inspected and nothing that it sends
/// is blocked.
pub proof fn an_unmatched_connection_is_inspected(
    rules: Seq<Rule>,
    ip: Seq<char>,
    user: Seq<char>,
    db: Seq<char>,
    now: TimeOfDay,
    query: Seq<u8>,
)
    requires
        net::address_of(ip) is Some,
        forall|i: int|
            0 <= i < rules.len() ==> !applies(
                #[trigger] rules[i],
                net::address_of(ip)->0,
                user,
                db,
                now,
            ),
    ensures
        connection_decision(rules, ip, user, db, now) == plain_decision(Action::INSPECT),
        permits(query, connection_decision(rules, ip, user, db, now)),
    decreases rules.len(),
{
    if rules.len() > 0 {
        let rest = rules.drop_first();
        assert forall|i: int| 0 <= i < rest.len() implies !applies(
            #[trigger] rest[i],
            net::address_of(ip)->0,
            user,
            db,
            now,
        ) by {
            assert(rest[i] == rules[i + 1]);
        }
        assert(!applies(rules[0], net::address_of(ip)->0, user, db, now));
        an_unmatched_connection_is_inspected(rest, ip, user, db, now, query);
    }
}

/// A client whose address is none is denied, whatever the rules say.
pub proof fn what_is_no_address_is_denied(
    rules: Seq<Rule>,
    ip: Seq<char>,
    user: Seq<char>,
    db: Seq<char>,
    now: TimeOfDay,
)
    requires
        net::address_of(ip) is None,
    ensures
        connection_decision(rules, ip, user, db, now).action == Action::DENY,
{
}

/// Where no rule has a time range, the time of day makes no difference.
pub proof fn timeless_rules_decide_alike_at_all_times(
    rules: Seq<Rule>,
    ip: Seq<char>,
    user: Seq<char>,
    db: Seq<char>,
    now: TimeOfDay,
    later: TimeOfDay,
)
    requires
        forall|i: int| 0 <= i < rules.len() ==> (#[trigger] rules[i]).time_range is None,
    ensures
        connection_decision(rules, ip, user, db, now) == connection_decision(
            rules,
            ip,
            user,
            db,
            later,
        ),
    decreases rules.len(),
{
    if rules.len() > 0 {
        let rest = rules.drop_first();
        assert forall|i: int| 0 <= i < rest.len() implies (#[trigger] rest[i]).time_range
            is None by {
            assert(rest[i] == rules[i + 1]);
        }
        assert(rules[0].time_range is None);
        timeless_rules_decide_alike_at_all_times(rest, ip, user, db, now, later);
    }
}

/// A rule that lists no addresses applies to every address, of either family, or
/// to none.
pub proof fn a_rule_without_addresses_spans_both_families(
    rule: Rule,
    address: IpAddress,
    other: IpAddress,
    user: Seq<char>,
    db: Seq<char>,
    now: TimeOfDay,
)
    requires
        rule.ips is None,
    ensures
        applies(rule, address, user, db, now) == applies(rule, other, user, db, now),
{
}

/// A list that names no IPv6 network applies to no IPv6 client, and one that
/// names no IPv4 network to no IPv4 client: the IPv4 default route `0.0.0.0/0` is
/// no catch-all.
pub proof fn a_list_of_one_family_misses_the_other(entries: Seq<String>, address: IpAddress)
    requires
        !lists_family(entries, address is V4),
    ensures
        !covers_address(entries, address),
{
    if covers_address(entries, address) {
        let i = choose|i: int|
            0 <= i < entries.len() && (net::network_of((#[trigger] entries[i])@) matches Some(n)
                && n.covers(address));
        let n = net::network_of(entries[i]@)->0;
        net::networks_keep_to_their_family(n, address);
        assert(n.first is V4 == address is V4);
    }
}

/// Letter case makes no difference to what is blocked, neither in the statement
/// nor in the words.
pub proof fn blocking_ignores_letter_case(
    query: Seq<u8>,
    other: Seq<u8>,
    word: Seq<u8>,
    same_word: Seq<u8>,
)
    requires
        text::folded(query) == text::folded(other),
        text::folded(word) == text::folded(same_word),
    ensures
        search::mentions(query, word) == search::mentions(other, same_word),
{
    if search::mentions(query, word) {
        search::mentions_ignores_case(query, other, word, same_word);
    }
    if search::mentions(other, same_word) {
        search::mentions_ignores_case(other, query, same_word, word);
    }
}

/// A longer block list blocks no less.
pub proof fn more_words_block_no_less(
    query: Seq<u8>,
    decision: Decision,
    commands: Seq<Seq<u8>>,
    tables: Seq<Seq<u8>>,
)
    requires
        !permits(query, decision),
    ensures
        !permits(
            query,
            Decision {
                action: decision.action,
                block_queries: decision.block_queries + commands,
                block_tables: decision.block_tables + tables,
            },
        ),
{
    if decision.action == Action::INSPECT {
        if mentions_any(query, decision.block_queries) {
            let i = choose|i: int|
                0 <= i < decision.block_queries.len() && search::mentions(
                    query,
                    #[trigger] decision.block_queries[i],
                );
            assert((decision.block_queries + commands)[i] == decision.block_queries[i]);
        } else {
            let i = choose|i: int|
                0 <= i < decision.block_tables.len() && search::mentions(
                    query,
                    #[trigger] decision.block_tables[i],
                );
            assert((decision.block_tables + tables)[i] == decision.block_tables[i]);
        }
    }
}

} // verus!
