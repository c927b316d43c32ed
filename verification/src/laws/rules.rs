//! Laws on Guardian's rules: times of day, which rule decides, and what is blocked.

use crate::clock::TimeOfDay;
use crate::guardian;
use crate::guardian::{
    Action, BlockedWord, BlockedWordView, ConfigError, ConnectionContext, ConnectionMatch, Decision,
    Rule,
};
use crate::laws::texts;
use crate::net;
use crate::net::IpAddress;
use crate::search;
use crate::text;
use vstd::prelude::*;
use vstd::string::*;
use vstd::utf8::*;

verus! {

// ---- times of day -------------------------------------------------------

/// A time of day is two digits for an hour, a colon, and two digits for a minute; it
/// stands for that many minutes after midnight.
pub proof fn a_time_of_day_is_hours_and_minutes(s: Seq<char>)
    ensures
        guardian::is_time(s) <==> s.len() == 5 && s[2] == ':' && '0' <= s[0] <= '9' && '0' <= s[1]
            <= '9' && '0' <= s[3] <= '9' && '0' <= s[4] <= '9' && (s[0] as int - 48) * 10 + (
        s[1] as int - 48) < 24 && (s[3] as int - 48) * 10 + (s[4] as int - 48) < 60,
        guardian::is_time(s) ==> guardian::minutes_of(s) == ((s[0] as int - 48) * 10 + (
        s[1] as int - 48)) * 60 + (s[3] as int - 48) * 10 + (s[4] as int - 48),
{
    if s.len() == 5 {
        let h = s.subrange(0, 2);
        let m = s.subrange(3, 5);
        assert(h[0] == s[0] && h[1] == s[1] && m[0] == s[3] && m[1] == s[4]);
        if '0' <= s[0] <= '9' && '0' <= s[1] <= '9' {
            two_digits(s[0], s[1]);
            assert(h == Seq::<char>::empty().push(s[0]).push(s[1]));
        } else {
            assert(!text::is_digit(h[0]) || !text::is_digit(h[1]));
        }
        if '0' <= s[3] <= '9' && '0' <= s[4] <= '9' {
            two_digits(s[3], s[4]);
            assert(m == Seq::<char>::empty().push(s[3]).push(s[4]));
        } else {
            assert(!text::is_digit(m[0]) || !text::is_digit(m[1]));
        }
    }
}

proof fn two_digits(a: char, b: char)
    requires
        '0' <= a <= '9',
        '0' <= b <= '9',
    ensures
        text::all_digits(Seq::<char>::empty().push(a).push(b)),
        text::number(Seq::<char>::empty().push(a).push(b)) == (a as int - 48) * 10 + (b as int
            - 48),
{
    let none = Seq::<char>::empty();
    texts::numbers_are_read_in_decimal(none, a);
    texts::numbers_are_read_in_decimal(none.push(a), b);
}

/// The text of a time of day has the digits of its hour, a colon, and the digits of
/// its minute.
pub proof fn a_time_of_day_is_written_in_full(t: TimeOfDay)
    requires
        t.hour < 24,
        t.minute < 60,
    ensures
        guardian::time_text(t).len() == 5,
        guardian::time_text(t)[0] as int == 48 + t.hour / 10,
        guardian::time_text(t)[1] as int == 48 + t.hour % 10,
        guardian::time_text(t)[2] == ':',
        guardian::time_text(t)[3] as int == 48 + t.minute / 10,
        guardian::time_text(t)[4] as int == 48 + t.minute % 10,
{
}

/// A range is two times of day with a `-` between them and white space anywhere
/// around them. It holds the minutes from the first to the second, both included;
/// where the second is earlier, those up to midnight and those from midnight on.
pub proof fn a_range_holds_the_minutes_between_its_ends(
    w: Seq<char>,
    a: Seq<char>,
    x: Seq<char>,
    y: Seq<char>,
    b: Seq<char>,
    z: Seq<char>,
    now: TimeOfDay,
)
    requires
        forall|i: int| 0 <= i < w.len() ==> text::is_space(#[trigger] w[i]),
        forall|i: int| 0 <= i < x.len() ==> text::is_space(#[trigger] x[i]),
        forall|i: int| 0 <= i < y.len() ==> text::is_space(#[trigger] y[i]),
        forall|i: int| 0 <= i < z.len() ==> text::is_space(#[trigger] z[i]),
        guardian::is_time(a),
        guardian::is_time(b),
        now.hour < 24,
        now.minute < 60,
    ensures
        ({
            let at = now.hour * 60 + now.minute;
            let start = guardian::minutes_of(a);
            let end = guardian::minutes_of(b);
            guardian::in_range(guardian::time_text(now), (w + a + x).push('-') + (y + b + z))
                <==> if start <= end {
                start <= at <= end
            } else {
                start <= at || at <= end
            }
        }),
{
    let range = (w + a + x).push('-') + (y + b + z);
    ends_of_a_range(w, a, x, y, b, z);
    guardian::ranges_wrap_around_midnight(now, range);
}

proof fn ends_of_a_range(
    w: Seq<char>,
    a: Seq<char>,
    x: Seq<char>,
    y: Seq<char>,
    b: Seq<char>,
    z: Seq<char>,
)
    requires
        forall|i: int| 0 <= i < w.len() ==> text::is_space(#[trigger] w[i]),
        forall|i: int| 0 <= i < x.len() ==> text::is_space(#[trigger] x[i]),
        forall|i: int| 0 <= i < y.len() ==> text::is_space(#[trigger] y[i]),
        forall|i: int| 0 <= i < z.len() ==> text::is_space(#[trigger] z[i]),
        guardian::is_time(a),
        guardian::is_time(b),
    ensures
        guardian::range_ends((w + a + x).push('-') + (y + b + z)) == Some((a, b)),
{
    let front = w + a + x;
    let back = y + b + z;
    a_time_of_day_is_hours_and_minutes(a);
    a_time_of_day_is_hours_and_minutes(b);
    assert forall|i: int| 0 <= i < front.len() implies front[i] != '-' by {
        if i < w.len() {
            assert(front[i] == w[i]);
        } else if i < w.len() + a.len() {
            assert(front[i] == a[i - w.len()]);
        } else {
            assert(front[i] == x[i - w.len() - a.len()]);
        }
    }
    texts::a_text_is_cut_at_the_first_separator(front, '-', back);
    texts::trimming_undoes_padding(w, a, x);
    texts::trimming_undoes_padding(y, b, z);
}

/// Whatever text is put to a range is held to the order of texts: between the ends, or
/// outside them where the second comes first.
pub proof fn a_range_is_held_to_the_order_of_texts(
    w: Seq<char>,
    a: Seq<char>,
    x: Seq<char>,
    y: Seq<char>,
    b: Seq<char>,
    z: Seq<char>,
    now: Seq<char>,
)
    requires
        forall|i: int| 0 <= i < w.len() ==> text::is_space(#[trigger] w[i]),
        forall|i: int| 0 <= i < x.len() ==> text::is_space(#[trigger] x[i]),
        forall|i: int| 0 <= i < y.len() ==> text::is_space(#[trigger] y[i]),
        forall|i: int| 0 <= i < z.len() ==> text::is_space(#[trigger] z[i]),
        guardian::is_time(a),
        guardian::is_time(b),
    ensures
        guardian::in_range(now, (w + a + x).push('-') + (y + b + z)) <==> {
            if text::text_le(a, b) {
                text::text_le(a, now) && text::text_le(now, b)
            } else {
                text::text_le(a, now) || text::text_le(now, b)
            }
        },
{
    ends_of_a_range(w, a, x, y, b, z);
}

/// A range without a `-`, or with something else than a time of day on either side of
/// its first one, holds no time at all.
pub proof fn what_is_no_range_holds_nothing(front: Seq<char>, back: Seq<char>, now: Seq<char>)
    requires
        !front.contains('-'),
        !guardian::is_time(text::trimmed(front)) || !guardian::is_time(text::trimmed(back)),
    ensures
        !guardian::in_range(now, front),
        !guardian::in_range(now, front.push('-') + back),
{
    texts::a_text_is_cut_at_the_first_separator(front, '-', back);
}

// ---- which rule decides -------------------------------------------------

/// A rule applies where its address list has a network that covers the client, its
/// user list the user, its database list the database, and its time range the time; a
/// condition that a rule does not have holds.
pub proof fn a_rule_applies_by_its_conditions(
    rule: Rule,
    address: IpAddress,
    user: Seq<char>,
    db: Seq<char>,
    now: TimeOfDay,
)
    ensures
        guardian::applies(rule, address, user, db, now) <==> {
            &&& match rule.ips {
                Some(list) => exists|j: int|
                    0 <= j < list@.len() && (net::network_of((#[trigger] list@[j])@) matches Some(n)
                        && n.covers(address)),
                None => true,
            }
            &&& match rule.users {
                Some(list) => exists|j: int| 0 <= j < list@.len() && (#[trigger] list@[j])@ == user,
                None => true,
            }
            &&& match rule.databases {
                Some(list) => exists|j: int| 0 <= j < list@.len() && (#[trigger] list@[j])@ == db,
                None => true,
            }
            &&& match rule.time_range {
                Some(range) => guardian::in_range(guardian::time_text(now), range@),
                None => true,
            }
        },
{
    if let Some(list) = rule.users {
        a_name_is_listed(list, user);
    }
    if let Some(list) = rule.databases {
        a_name_is_listed(list, db);
    }
}

proof fn a_name_is_listed(list: Vec<String>, name: Seq<char>)
    ensures
        guardian::texts(list@).contains(name) <==> exists|j: int|
            0 <= j < list@.len() && (#[trigger] list@[j])@ == name,
{
    let all = guardian::texts(list@);
    if all.contains(name) {
        let j = choose|j: int| 0 <= j < all.len() && all[j] == name;
        assert(list@[j]@ == name);
    }
    if exists|j: int| 0 <= j < list@.len() && (#[trigger] list@[j])@ == name {
        let j = choose|j: int| 0 <= j < list@.len() && (#[trigger] list@[j])@ == name;
        assert(all[j] == name);
    }
}

/// The first rule whose conditions hold decides: the connection gets its action, is
/// put down to its name, and may not send its words.
pub proof fn the_first_rule_that_applies_decides(
    rules: Seq<Rule>,
    k: int,
    ip: Seq<char>,
    address: IpAddress,
    user: Seq<char>,
    db: Seq<char>,
    now: TimeOfDay,
)
    requires
        !ip.contains('/'),
        net::address_literal(ip) == Some(address),
        0 <= k < rules.len(),
        guardian::applies(rules[k], address, user, db, now),
        forall|i: int|
            0 <= i < k ==> !guardian::applies(#[trigger] rules[i], address, user, db, now),
    ensures
        ({
            let decision = guardian::connection_decision(rules, ip, user, db, now);
            &&& decision.action == rules[k].action
            &&& decision.block_queries == guardian::rule_decision(rules[k]).block_queries
            &&& decision.block_tables == guardian::rule_decision(rules[k]).block_tables
            &&& guardian::deciding_rule_name(rules, ip, user, db, now) == Some(rules[k].name@)
            &&& guardian::applicable_commands(rules, ip, user, db, now) == guardian::listed(
                rules[k].block_queries,
            )
        }),
{
    let before = rules.take(k);
    let behind = rules.skip(k + 1);
    assert(rules == before.push(rules[k]) + behind);
    assert forall|i: int| 0 <= i < before.len() implies !guardian::applies(
        #[trigger] before[i],
        address,
        user,
        db,
        now,
    ) by {
        assert(before[i] == rules[i]);
    }
    guardian::the_first_applicable_rule_decides(
        before,
        rules[k],
        behind,
        address,
        user,
        db,
        now,
    );
}

/// Where no rule's conditions hold, the connection is inspected, put down to no rule,
/// and may send everything. Where the client's address is none, it is denied.
pub proof fn without_a_rule_a_connection_is_inspected(
    rules: Seq<Rule>,
    ip: Seq<char>,
    user: Seq<char>,
    db: Seq<char>,
    now: TimeOfDay,
)
    requires
        ip.contains('/') || (match net::address_literal(ip) {
            None => true,
            Some(address) => forall|i: int|
                0 <= i < rules.len() ==> !guardian::applies(
                    #[trigger] rules[i],
                    address,
                    user,
                    db,
                    now,
                ),
        }),
    ensures
        ({
            let decision = guardian::connection_decision(rules, ip, user, db, now);
            &&& decision.action == if ip.contains('/') || net::address_literal(ip) is None {
                Action::DENY
            } else {
                Action::INSPECT
            }
            &&& decision.block_queries.len() == 0
            &&& decision.block_tables.len() == 0
            &&& guardian::deciding_rule_name(rules, ip, user, db, now) is None
            &&& guardian::applicable_commands(rules, ip, user, db, now).len() == 0
        }),
{
    if !ip.contains('/') && net::address_literal(ip) is Some {
        nothing_applies(rules, net::address_literal(ip)->0, user, db, now);
    }
}

proof fn nothing_applies(
    rules: Seq<Rule>,
    address: IpAddress,
    user: Seq<char>,
    db: Seq<char>,
    now: TimeOfDay,
)
    requires
        forall|i: int|
            0 <= i < rules.len() ==> !guardian::applies(
                #[trigger] rules[i],
                address,
                user,
                db,
                now,
            ),
    ensures
        guardian::first_applicable(rules, address, user, db, now) is None,
    decreases rules.len(),
{
    if rules.len() > 0 {
        let rest = rules.drop_first();
        assert(!guardian::applies(rules[0], address, user, db, now));
        assert forall|i: int| 0 <= i < rest.len() implies !guardian::applies(
            #[trigger] rest[i],
            address,
            user,
            db,
            now,
        ) by {
            assert(rest[i] == rules[i + 1]);
        }
        nothing_applies(rest, address, user, db, now);
    }
}

/// What a rule blocks are its words, one for one: the commands in their upper-case
/// form, the tables as they are written. A list that it does not have has none.
pub proof fn a_rule_blocks_its_words(rule: Rule, i: int)
    ensures
        guardian::rule_decision(rule).action == rule.action,
        match rule.block_queries {
            Some(list) => {
                &&& guardian::rule_decision(rule).block_queries.len() == list@.len()
                &&& 0 <= i < list@.len() ==> guardian::rule_decision(rule).block_queries[i]
                    == encode_utf8(text::uppercase(list@[i]@))
                &&& 0 <= i < list@.len() && is_ascii_chars(list@[i]@) && guardian::upper_as_ascii(
                    guardian::listed(rule.block_queries),
                ) ==> text::uppercase(list@[i]@) == list@[i]@.map_values(
                    |c: char| text::ascii_upper(c),
                )
            },
            None => guardian::rule_decision(rule).block_queries.len() == 0,
        },
        match rule.block_tables {
            Some(list) => {
                &&& guardian::rule_decision(rule).block_tables.len() == list@.len()
                &&& 0 <= i < list@.len() ==> guardian::rule_decision(rule).block_tables[i]
                    == encode_utf8(list@[i]@)
            },
            None => guardian::rule_decision(rule).block_tables.len() == 0,
        },
{
    if let Some(list) = rule.block_queries {
        if 0 <= i < list@.len() {
            assert(guardian::listed(rule.block_queries)[i] == list@[i]@);
        }
    }
}

// ---- what is blocked ----------------------------------------------------

/// An allowed connection sends everything, a denied one nothing, and an inspected one
/// exactly what holds none of its words.
pub proof fn a_statement_is_blocked_for_its_words(query: Seq<u8>, decision: Decision)
    ensures
        decision.action == Action::ALLOW ==> guardian::permits(query, decision),
        decision.action == Action::DENY ==> !guardian::permits(query, decision),
        decision.action == Action::INSPECT ==> (guardian::permits(query, decision) <==> (forall|
            i: int,
        |
            0 <= i < decision.block_queries.len() ==> !search::mentions(
                query,
                #[trigger] decision.block_queries[i],
            )) && (forall|i: int|
            0 <= i < decision.block_tables.len() ==> !search::mentions(
                query,
                #[trigger] decision.block_tables[i],
            ))),
{
}

/// The word that an inspected statement is blocked for is the first of the commands
/// that it holds.
pub proof fn the_first_command_is_named(query: Seq<u8>, decision: Decision, k: int)
    requires
        decision.action == Action::INSPECT,
        0 <= k < decision.block_queries.len(),
        search::mentions(query, decision.block_queries[k]),
        forall|i: int|
            0 <= i < k ==> !search::mentions(query, #[trigger] decision.block_queries[i]),
    ensures
        guardian::offending_word(query, decision) == Some(
            BlockedWordView::Command(decision.block_queries[k]),
        ),
{
    first_is(query, decision.block_queries, k);
}

/// Where a statement holds no command, it is the first of the tables.
pub proof fn else_the_first_table_is_named(query: Seq<u8>, decision: Decision, k: int)
    requires
        decision.action == Action::INSPECT,
        forall|i: int|
            0 <= i < decision.block_queries.len() ==> !search::mentions(
                query,
                #[trigger] decision.block_queries[i],
            ),
        0 <= k <= decision.block_tables.len(),
        k < decision.block_tables.len() ==> search::mentions(query, decision.block_tables[k]),
        forall|i: int|
            0 <= i < k ==> !search::mentions(query, #[trigger] decision.block_tables[i]),
    ensures
        guardian::offending_word(query, decision) == if k < decision.block_tables.len() {
            Some(BlockedWordView::Table(decision.block_tables[k]))
        } else {
            None
        },
{
    none_is(query, decision.block_queries);
    if k < decision.block_tables.len() {
        first_is(query, decision.block_tables, k);
    } else {
        none_is(query, decision.block_tables);
    }
}

/// Where nothing is inspected, no word is named.
pub proof fn outright_decisions_name_no_word(query: Seq<u8>, decision: Decision)
    requires
        decision.action != Action::INSPECT,
    ensures
        guardian::offending_word(query, decision) is None,
{
}

proof fn first_is(query: Seq<u8>, words: Seq<Seq<u8>>, k: int)
    requires
        0 <= k < words.len(),
        search::mentions(query, words[k]),
        forall|i: int| 0 <= i < k ==> !search::mentions(query, #[trigger] words[i]),
    ensures
        guardian::first_mentioned(query, words) == Some(words[k]),
    decreases words.len(),
{
    if k > 0 {
        assert(!search::mentions(query, words[0]));
        let rest = words.drop_first();
        assert forall|i: int| 0 <= i < k - 1 implies !search::mentions(
            query,
            #[trigger] rest[i],
        ) by {
            assert(rest[i] == words[i + 1]);
        }
        first_is(query, rest, k - 1);
    }
}

proof fn none_is(query: Seq<u8>, words: Seq<Seq<u8>>)
    requires
        forall|i: int| 0 <= i < words.len() ==> !search::mentions(query, #[trigger] words[i]),
    ensures
        guardian::first_mentioned(query, words) is None,
    decreases words.len(),
{
    if words.len() > 0 {
        assert(!search::mentions(query, words[0]));
        let rest = words.drop_first();
        assert forall|i: int| 0 <= i < rest.len() implies !search::mentions(
            query,
            #[trigger] rest[i],
        ) by {
            assert(rest[i] == words[i + 1]);
        }
        none_is(query, rest);
    }
}

/// What is said to have decided is the rule that did, by its name.
pub proof fn a_match_names_its_rule(found: ConnectionMatch, name: String)
    ensures
        found.rule == Some(name) ==> found.rule_name() == Some(name@),
        found.rule is None ==> found.rule_name() is None,
{
}

/// A decision is what its context holds: the action, and the words byte for byte.
pub proof fn a_context_is_its_decision(context: ConnectionContext, i: int)
    ensures
        context@.action == context.action,
        context@.block_queries.len() == context.block_queries@.len(),
        context@.block_tables.len() == context.block_tables@.len(),
        0 <= i < context.block_queries@.len() ==> context@.block_queries[i]
            == context.block_queries@[i]@,
        0 <= i < context.block_tables@.len() ==> context@.block_tables[i]
            == context.block_tables@[i]@,
{
}

/// A blocked word is its bytes, and of the list that it was found in.
pub proof fn a_blocked_word_is_its_bytes(word: Vec<u8>)
    ensures
        BlockedWord::Command(word)@ == BlockedWordView::Command(word@),
        BlockedWord::Table(word)@ == BlockedWordView::Table(word@),
{
}

// ---- what an operator is told -------------------------------------------

/// A rule that lists addresses is warned of where none of them is a network, or where
/// they are all of one family; no other rule is.
pub proof fn an_address_list_of_one_family_is_warned_of(rule: Rule, list: Vec<String>)
    ensures
        rule.ips is None ==> guardian::rule_warning(rule) is None,
        rule.ips == Some(list) ==> ({
            let v4 = exists|j: int|
                0 <= j < list@.len() && (net::network_of((#[trigger] list@[j])@) matches Some(n)
                    && n.first is V4);
            let v6 = exists|j: int|
                0 <= j < list@.len() && (net::network_of((#[trigger] list@[j])@) matches Some(n)
                    && n.first is V6);
            guardian::rule_warning(rule) == if v4 && v6 {
                None
            } else if v4 {
                Some(
                    "Guardian rule '"@ + rule.name@
                        + "' lists only IPv4 addresses, so it will not match IPv6 clients. Note that 0.0.0.0/0 is the IPv4 default route, not a catch-all: omit `ips` entirely to match any address, or add ::/0 alongside it."@,
                )
            } else if v6 {
                Some(
                    "Guardian rule '"@ + rule.name@
                        + "' lists only IPv6 addresses, so it will not match IPv4 clients."@,
                )
            } else {
                Some(
                    "Guardian rule '"@ + rule.name@
                        + "' lists addresses but none of them parse as CIDR blocks; the rule can never match."@,
                )
            }
        }),
{
    if rule.ips == Some(list) {
        assert(guardian::lists_family(list@, true) <==> exists|j: int|
            0 <= j < list@.len() && (net::network_of((#[trigger] list@[j])@) matches Some(n)
                && n.first is V4));
        assert(guardian::lists_family(list@, false) <==> exists|j: int|
            0 <= j < list@.len() && (net::network_of((#[trigger] list@[j])@) matches Some(n)
                && n.first is V6));
    }
}

/// Each rule that is warned of is warned of once, in the order of the rules.
pub proof fn each_rule_is_warned_of_in_order(rules: Seq<Rule>, rule: Rule)
    ensures
        guardian::rule_warnings(Seq::empty()).len() == 0,
        guardian::rule_warnings(rules.push(rule)) == match guardian::rule_warning(rule) {
            Some(warning) => guardian::rule_warnings(rules).push(warning),
            None => guardian::rule_warnings(rules),
        },
{
    assert(rules.push(rule).drop_last() == rules);
}

/// A ruleset that does not parse is reported with its path and the reason.
pub proof fn a_bad_ruleset_is_explained(path: String, detail: String)
    ensures
        (ConfigError::Invalid { path, detail }).message_text() == "Guardian config "@ + path@
            + " could not be parsed: "@ + detail@
            + ". Refusing to start: continuing would silently run with no rules at all."@,
{
}

/// Strings are seen as their texts, one for one.
pub proof fn strings_are_seen_as_their_texts(list: Seq<String>, bytes: Seq<Vec<u8>>, i: int)
    ensures
        guardian::texts(list).len() == list.len(),
        0 <= i < list.len() ==> guardian::texts(list)[i] == list[i]@,
        guardian::byte_strings(bytes).len() == bytes.len(),
        0 <= i < bytes.len() ==> guardian::byte_strings(bytes)[i] == bytes[i]@,
{
}

} // verus!
