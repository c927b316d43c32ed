//! Laws on the course of a connection, stated of the bytes that come and of the step
//! that answers them.

use crate::clock::TimeOfDay;
use crate::guardian;
use crate::guardian::{Action, BlockedWord, Decision};
use crate::laws::rules;
use crate::laws::startup;
use crate::laws::texts;
use crate::laws::words;
use crate::net;
use crate::net::IpAddress;
use crate::protocol;
use crate::proxy;
use crate::proxy::ProxyConfig;
use crate::search;
use crate::session;
use crate::session::{Event, EventView, Phase, SessionView, Step, StepView};
use crate::text;
use crate::trust;
use vstd::prelude::*;
use vstd::string::*;
use vstd::utf8::*;

verus! {

// ---- statements ---------------------------------------------------------

/// A Query (`Q`) or a Parse (`P`) of fewer than 1024 bytes is read whole before
/// anything of it goes on. Every other message goes on as it comes. The bytes of a
/// message are those that its length word counts, but for the word itself.
pub proof fn short_statements_are_read_before_they_go_on(
    s: SessionView,
    kind: u8,
    a: u8,
    b: u8,
    c: u8,
    d: u8,
    cfg: ProxyConfig,
    now: TimeOfDay,
)
    requires
        s.phase == Phase::FrameHeader,
    ensures
        ({
            let header = seq![kind, a, b, c, d];
            let declared = a * 0x100_0000 + b * 0x1_0000 + c * 0x100 + d;
            let len = if declared < 4 {
                0nat
            } else {
                (declared - 4) as nat
            };
            let (after, step) = session::next(s, EventView::Received(header), cfg, now);
            if (kind == 0x51 || kind == 0x50) && len < 1024 {
                &&& step == StepView::Read(len)
                &&& after == (SessionView {
                    phase: Phase::Statement,
                    frame: header,
                    wanted: len,
                    ..s
                })
            } else {
                &&& step == (StepView::PassThrough { header, len })
                &&& after == (SessionView { phase: Phase::PassingThrough, ..s })
            }
        }),
{
    let header = seq![kind, a, b, c, d];
    assert(header.skip(1) == seq![a, b, c, d]);
}

/// A statement that holds a word which its connection may not send, in whatever letter
/// case, with no byte of an identifier in front of it or behind it, is answered with an
/// error and goes nowhere. The connection stays open and nothing else of it changes.
pub proof fn a_statement_with_a_blocked_word_is_answered(
    s: SessionView,
    decision: Decision,
    word: Seq<u8>,
    before: Seq<u8>,
    written: Seq<u8>,
    behind: Seq<u8>,
    cfg: ProxyConfig,
    now: TimeOfDay,
)
    requires
        s.phase == Phase::Statement,
        s.wanted == before.len() + written.len() + behind.len(),
        s.decision == Some(decision),
        decision.action == Action::INSPECT,
        decision.block_queries.contains(word) || decision.block_tables.contains(word),
        written.len() == word.len(),
        forall|j: int|
            0 <= j < word.len() ==> {
                ||| #[trigger] written[j] == word[j]
                ||| 0x41 <= written[j] <= 0x5a && word[j] == written[j] + 32
                ||| 0x41 <= word[j] <= 0x5a && written[j] == word[j] + 32
            },
        before.len() > 0 ==> !{
            let b = before.last();
            ||| 0x30 <= b <= 0x39
            ||| 0x41 <= b <= 0x5a
            ||| 0x61 <= b <= 0x7a
            ||| b == 0x5f
            ||| b == 0x24
            ||| b >= 0x80
        },
        behind.len() > 0 ==> !{
            let b = behind[0];
            ||| 0x30 <= b <= 0x39
            ||| 0x41 <= b <= 0x5a
            ||| 0x61 <= b <= 0x7a
            ||| b == 0x5f
            ||| b == 0x24
            ||| b >= 0x80
        },
    ensures
        ({
            let statement = before + written + behind;
            let (after, step) = session::next(s, EventView::Received(statement), cfg, now);
            &&& step == (StepView::Block {
                reply: protocol::error_response("Query blocked by PG-Prism Guardian"@, "42501"@)
                    + seq![0x5au8, 0, 0, 0, 5, 0x49],
                read: 5,
                word: guardian::offending_word(statement, decision),
            })
            &&& guardian::offending_word(statement, decision) is Some
            &&& after == (SessionView { phase: Phase::FrameHeader, ..s })
        }),
{
    let statement = before + written + behind;
    words::a_word_between_other_bytes_is_found(before, written, behind, word);
    if decision.block_queries.contains(word) {
        let i = choose|i: int|
            0 <= i < decision.block_queries.len() && decision.block_queries[i] == word;
        assert(search::mentions(statement, decision.block_queries[i]));
    } else {
        let i = choose|i: int|
            0 <= i < decision.block_tables.len() && decision.block_tables[i] == word;
        assert(search::mentions(statement, decision.block_tables[i]));
    }
    guardian::a_blocked_statement_has_an_offending_word(statement, decision);
}

/// A Query or a Parse of an inspected connection that is short enough to be looked at
/// never reaches PostgreSQL if it holds one of the connection's words on its own.
pub proof fn a_blocked_word_never_reaches_the_server(
    s: SessionView,
    decision: Decision,
    word: Seq<u8>,
    kind: u8,
    before: Seq<u8>,
    written: Seq<u8>,
    behind: Seq<u8>,
    cfg: ProxyConfig,
    now: TimeOfDay,
    later: TimeOfDay,
)
    requires
        s.phase == Phase::FrameHeader,
        kind == 0x51 || kind == 0x50,
        before.len() + written.len() + behind.len() < 1024,
        s.decision == Some(decision),
        decision.action == Action::INSPECT,
        decision.block_queries.contains(word) || decision.block_tables.contains(word),
        written.len() == word.len(),
        forall|j: int|
            0 <= j < word.len() ==> {
                ||| #[trigger] written[j] == word[j]
                ||| 0x41 <= written[j] <= 0x5a && word[j] == written[j] + 32
                ||| 0x41 <= word[j] <= 0x5a && written[j] == word[j] + 32
            },
        before.len() > 0 ==> !{
            let b = before.last();
            ||| 0x30 <= b <= 0x39
            ||| 0x41 <= b <= 0x5a
            ||| 0x61 <= b <= 0x7a
            ||| b == 0x5f
            ||| b == 0x24
            ||| b >= 0x80
        },
        behind.len() > 0 ==> !{
            let b = behind[0];
            ||| 0x30 <= b <= 0x39
            ||| 0x41 <= b <= 0x5a
            ||| 0x61 <= b <= 0x7a
            ||| b == 0x5f
            ||| b == 0x24
            ||| b >= 0x80
        },
    ensures
        ({
            let statement = before + written + behind;
            let header = seq![
                kind,
                0u8,
                0u8,
                ((statement.len() + 4) / 256) as u8,
                ((statement.len() + 4) % 256) as u8,
            ];
            let (reading, first) = session::next(s, EventView::Received(header), cfg, now);
            let (after, second) = session::next(
                reading,
                EventView::Received(statement),
                cfg,
                later,
            );
            &&& first == StepView::Read(statement.len())
            &&& second is Block
            &&& after == (SessionView { frame: header, wanted: statement.len(), ..s })
        }),
{
    let statement = before + written + behind;
    let n = statement.len() + 4;
    let c = (n / 256) as u8;
    let d = (n % 256) as u8;
    short_statements_are_read_before_they_go_on(s, kind, 0, 0, c, d, cfg, now);
    let header = seq![kind, 0u8, 0u8, c, d];
    let reading = session::next(s, EventView::Received(header), cfg, now).0;
    a_statement_with_a_blocked_word_is_answered(
        reading,
        decision,
        word,
        before,
        written,
        behind,
        cfg,
        later,
    );
}

/// A statement of an inspected connection that holds none of its words goes on as it
/// came, behind its header.
pub proof fn a_statement_without_blocked_words_goes_on(
    s: SessionView,
    decision: Decision,
    statement: Seq<u8>,
    cfg: ProxyConfig,
    now: TimeOfDay,
)
    requires
        s.phase == Phase::Statement,
        s.wanted == statement.len(),
        s.decision == Some(decision),
        decision.action == Action::INSPECT,
        forall|i: int|
            0 <= i < decision.block_queries.len() ==> !search::mentions(
                statement,
                #[trigger] decision.block_queries[i],
            ),
        forall|i: int|
            0 <= i < decision.block_tables.len() ==> !search::mentions(
                statement,
                #[trigger] decision.block_tables[i],
            ),
    ensures
        session::next(s, EventView::Received(statement), cfg, now) == (
            SessionView { phase: Phase::FrameHeader, ..s },
            StepView::Forward { packet: s.frame + statement, read: 5 },
        ),
{
}

/// Every statement of an allowed connection, or of one of which nothing was decided,
/// goes on as it came; none of a denied one does.
pub proof fn outright_decisions_hold_for_every_statement(
    s: SessionView,
    statement: Seq<u8>,
    cfg: ProxyConfig,
    now: TimeOfDay,
)
    requires
        s.phase == Phase::Statement,
        s.wanted == statement.len(),
        s.decision matches Some(d) ==> d.action != Action::INSPECT,
    ensures
        ({
            let (after, step) = session::next(s, EventView::Received(statement), cfg, now);
            let denied = s.decision is Some && s.decision->0.action == Action::DENY;
            &&& after == (SessionView { phase: Phase::FrameHeader, ..s })
            &&& !denied ==> step == (StepView::Forward { packet: s.frame + statement, read: 5 })
            &&& denied ==> step == (StepView::Block {
                reply: protocol::error_response("Query blocked by PG-Prism Guardian"@, "42501"@)
                    + seq![0x5au8, 0, 0, 0, 5, 0x49],
                read: 5,
                word: None,
            })
        }),
{
}

/// Once a message has passed through, the next one is waited for.
pub proof fn the_next_message_is_waited_for(s: SessionView, cfg: ProxyConfig, now: TimeOfDay)
    requires
        s.phase == Phase::PassingThrough,
    ensures
        session::next(s, EventView::PassedThrough, cfg, now) == (
            SessionView { phase: Phase::FrameHeader, ..s },
            StepView::Read(5),
        ),
{
}

// ---- the startup message ------------------------------------------------

/// A startup message is judged by the first rule whose conditions hold of the client's
/// address, of the user and of the database that the message's parameters name, and of
/// the time of day. Where that rule denies, the client is refused; where it does not,
/// PostgreSQL is connected to, and the rule's action and words go with the connection.
pub proof fn a_startup_is_judged_by_the_first_rule_that_fits(
    s: SessionView,
    payload: Seq<u8>,
    user: Seq<u8>,
    database: Seq<u8>,
    address: IpAddress,
    k: int,
    cfg: ProxyConfig,
    now: TimeOfDay,
)
    requires
        s.phase == Phase::StartupPayload,
        s.wanted == payload.len(),
        payload.len() >= 4,
        payload[0] == 0 && payload[1] == 3,
        session::reads_exactly(s, EventView::Received(payload), cfg, now),
        protocol::parameter(protocol::startup_parameters(payload), encode_utf8("user"@)) == Some(
            user,
        ),
        protocol::parameter(protocol::startup_parameters(payload), encode_utf8("database"@))
            == Some(database),
        valid_utf8(user),
        valid_utf8(database),
        database.len() > 0,
        !s.client_ip.contains('/'),
        net::address_literal(s.client_ip) == Some(address),
        0 <= k <= cfg.guardian.rules@.len(),
        k < cfg.guardian.rules@.len() ==> {
            let rule = cfg.guardian.rules@[k];
            &&& match rule.ips {
                Some(list) => exists|j: int|
                    0 <= j < list@.len() && (net::network_of((#[trigger] list@[j])@) matches Some(n)
                        && n.covers(address)),
                None => true,
            }
            &&& match rule.users {
                Some(list) => exists|j: int|
                    0 <= j < list@.len() && (#[trigger] list@[j])@ == decode_utf8(user),
                None => true,
            }
            &&& match rule.databases {
                Some(list) => exists|j: int|
                    0 <= j < list@.len() && (#[trigger] list@[j])@ == decode_utf8(database),
                None => true,
            }
            &&& match rule.time_range {
                Some(range) => guardian::in_range(guardian::time_text(now), range@),
                None => true,
            }
        },
        forall|i: int|
            0 <= i < k ==> {
                let rule = #[trigger] cfg.guardian.rules@[i];
                ||| match rule.ips {
                    Some(list) => forall|j: int|
                        0 <= j < list@.len() ==> !(net::network_of(
                            (#[trigger] list@[j])@,
                        ) matches Some(n) && n.covers(address)),
                    None => false,
                }
                ||| match rule.users {
                    Some(list) => forall|j: int|
                        0 <= j < list@.len() ==> (#[trigger] list@[j])@ != decode_utf8(user),
                    None => false,
                }
                ||| match rule.databases {
                    Some(list) => forall|j: int|
                        0 <= j < list@.len() ==> (#[trigger] list@[j])@ != decode_utf8(database),
                    None => false,
                }
                ||| match rule.time_range {
                    Some(range) => !guardian::in_range(guardian::time_text(now), range@),
                    None => false,
                }
            },
    ensures
        ({
            let rules = cfg.guardian.rules@;
            let (after, step) = session::next(s, EventView::Received(payload), cfg, now);
            let decided = k < rules.len();
            let denied = decided && rules[k].action == Action::DENY;
            &&& denied ==> after.phase == Phase::Closed && step == (StepView::Refuse {
                reply: protocol::error_response(
                    "Connection denied by PG-Prism Guardian for IP: "@ + s.client_ip,
                    "28000"@,
                ),
                reason: "Connection denied by PG-Prism Guardian for IP: "@ + s.client_ip,
            })
            &&& !denied ==> after.phase == Phase::Connecting && step == StepView::Connect
            &&& after.payload == payload
            &&& after.rule == if decided {
                Some(rules[k].name@)
            } else {
                None
            }
            &&& after.decision is Some
            &&& decided ==> after.decision == Some(guardian::rule_decision(rules[k]))
                && after.decision->0.action == rules[k].action
            &&& !decided ==> after.decision == Some(
                Decision {
                    action: Action::INSPECT,
                    block_queries: Seq::empty(),
                    block_tables: Seq::empty(),
                },
            )
            &&& after.client_ip == s.client_ip
            &&& after.secure == s.secure
        }),
{
    a_version_three_payload_is_a_startup_message(payload);
    startup::a_startup_names_its_user_and_database(payload, user, database);
    every_startup_is_judged_by_the_first_rule_that_fits(s, payload, address, k, cfg, now);
}

/// Whoever a startup message asks for, it is judged by the first rule whose conditions
/// hold of that user and database.
pub proof fn every_startup_is_judged_by_the_first_rule_that_fits(
    s: SessionView,
    payload: Seq<u8>,
    address: IpAddress,
    k: int,
    cfg: ProxyConfig,
    now: TimeOfDay,
)
    requires
        s.phase == Phase::StartupPayload,
        s.wanted == payload.len(),
        payload.len() >= 4,
        payload[0] == 0 && payload[1] == 3,
        !s.client_ip.contains('/'),
        net::address_literal(s.client_ip) == Some(address),
        0 <= k <= cfg.guardian.rules@.len(),
        k < cfg.guardian.rules@.len() ==> {
            let rule = cfg.guardian.rules@[k];
            &&& match rule.ips {
                Some(list) => exists|j: int|
                    0 <= j < list@.len() && (net::network_of((#[trigger] list@[j])@) matches Some(n)
                        && n.covers(address)),
                None => true,
            }
            &&& match rule.users {
                Some(list) => exists|j: int|
                    0 <= j < list@.len() && (#[trigger] list@[j])@
                        == protocol::startup_identity(payload).0,
                None => true,
            }
            &&& match rule.databases {
                Some(list) => exists|j: int|
                    0 <= j < list@.len() && (#[trigger] list@[j])@
                        == protocol::startup_identity(payload).1,
                None => true,
            }
            &&& match rule.time_range {
                Some(range) => guardian::in_range(guardian::time_text(now), range@),
                None => true,
            }
        },
        forall|i: int|
            0 <= i < k ==> {
                let rule = #[trigger] cfg.guardian.rules@[i];
                ||| match rule.ips {
                    Some(list) => forall|j: int|
                        0 <= j < list@.len() ==> !(net::network_of(
                            (#[trigger] list@[j])@,
                        ) matches Some(n) && n.covers(address)),
                    None => false,
                }
                ||| match rule.users {
                    Some(list) => forall|j: int|
                        0 <= j < list@.len() ==> (#[trigger] list@[j])@
                            != protocol::startup_identity(payload).0,
                    None => false,
                }
                ||| match rule.databases {
                    Some(list) => forall|j: int|
                        0 <= j < list@.len() ==> (#[trigger] list@[j])@
                            != protocol::startup_identity(payload).1,
                    None => false,
                }
                ||| match rule.time_range {
                    Some(range) => !guardian::in_range(guardian::time_text(now), range@),
                    None => false,
                }
            },
    ensures
        ({
            let rules = cfg.guardian.rules@;
            let (after, step) = session::next(s, EventView::Received(payload), cfg, now);
            let decided = k < rules.len();
            let denied = decided && rules[k].action == Action::DENY;
            &&& denied ==> after.phase == Phase::Closed && step == (StepView::Refuse {
                reply: protocol::error_response(
                    "Connection denied by PG-Prism Guardian for IP: "@ + s.client_ip,
                    "28000"@,
                ),
                reason: "Connection denied by PG-Prism Guardian for IP: "@ + s.client_ip,
            })
            &&& !denied ==> after.phase == Phase::Connecting && step == StepView::Connect
            &&& after.payload == payload
            &&& after.rule == if decided {
                Some(rules[k].name@)
            } else {
                None
            }
            &&& after.decision is Some
            &&& decided ==> after.decision == Some(guardian::rule_decision(rules[k]))
                && after.decision->0.action == rules[k].action
            &&& !decided ==> after.decision == Some(
                Decision {
                    action: Action::INSPECT,
                    block_queries: Seq::empty(),
                    block_tables: Seq::empty(),
                },
            )
            &&& after.client_ip == s.client_ip
            &&& after.secure == s.secure
        }),
{
    let rules = cfg.guardian.rules@;
    let ip = s.client_ip;
    let u = protocol::startup_identity(payload).0;
    let d = protocol::startup_identity(payload).1;
    a_version_three_payload_is_a_startup_message(payload);
    assert forall|i: int| 0 <= i < k implies !guardian::applies(
        #[trigger] rules[i],
        address,
        u,
        d,
        now,
    ) by {
        rules::a_rule_applies_by_its_conditions(rules[i], address, u, d, now);
    }
    if k < rules.len() {
        rules::a_rule_applies_by_its_conditions(rules[k], address, u, d, now);
        rules::the_first_rule_that_applies_decides(rules, k, ip, address, u, d, now);
        assert(guardian::connection_decision(rules, ip, u, d, now) =~= guardian::rule_decision(
            rules[k],
        ));
    } else {
        rules::without_a_rule_a_connection_is_inspected(rules, ip, u, d, now);
        assert(guardian::connection_decision(rules, ip, u, d, now) =~= (Decision {
            action: Action::INSPECT,
            block_queries: Seq::empty(),
            block_tables: Seq::empty(),
        }));
    }
}

proof fn a_version_three_payload_is_a_startup_message(payload: Seq<u8>)
    requires
        payload.len() >= 4,
        payload[0] == 0 && payload[1] == 3,
    ensures
        session::is_startup_message(payload),
        protocol::wire_number(payload) != 80877103,
        protocol::wire_number(payload) != 80877104,
        protocol::wire_number(payload) != 80877102,
{
    third_version(payload[0], payload[1], payload[2], payload[3]);
}

proof fn third_version(a: u8, b: u8, c: u8, d: u8)
    requires
        a == 0 && b == 3,
    ensures
        (a * 16777216 + b * 65536 + c * 256 + d) / 65536 == 3,
        (a * 16777216 + b * 65536 + c * 256 + d) < 80877102,
{
}

/// A startup message of a client whose address is none is refused, whatever the rules
/// say.
pub proof fn a_startup_without_an_address_is_refused(
    s: SessionView,
    payload: Seq<u8>,
    cfg: ProxyConfig,
    now: TimeOfDay,
)
    requires
        s.phase == Phase::StartupPayload,
        s.wanted == payload.len(),
        payload.len() >= 4,
        payload[0] == 0 && payload[1] == 3,
        s.client_ip.contains('/') || net::address_literal(s.client_ip) is None,
    ensures
        ({
            let (after, step) = session::next(s, EventView::Received(payload), cfg, now);
            &&& after.phase == Phase::Closed
            &&& after.decision is Some && after.decision->0.action == Action::DENY
            &&& after.rule is None
            &&& step == (StepView::Refuse {
                reply: protocol::error_response(
                    "Connection denied by PG-Prism Guardian for IP: "@ + s.client_ip,
                    "28000"@,
                ),
                reason: "Connection denied by PG-Prism Guardian for IP: "@ + s.client_ip,
            })
        }),
{
    a_version_three_payload_is_a_startup_message(payload);
}

/// A request for TLS is accepted in plain text where TLS can be had, and then the
/// handshake is waited for. Where it cannot, and of a request for GSSAPI encryption
/// always, the client hears `N` and may go on. Encryption is asked for once: in a
/// connection that is secure, such a code is no request.
pub proof fn requests_for_encryption_are_answered(
    s: SessionView,
    payload: Seq<u8>,
    cfg: ProxyConfig,
    now: TimeOfDay,
)
    requires
        s.phase == Phase::StartupPayload,
        s.wanted == payload.len(),
        payload.len() >= 4,
        payload[0] == 0x04 && payload[1] == 0xd2 && payload[2] == 0x16,
        payload[3] == 0x2f || payload[3] == 0x30,
    ensures
        ({
            let (after, step) = session::next(s, EventView::Received(payload), cfg, now);
            if s.secure {
                &&& after == (SessionView { phase: Phase::Connecting, payload, ..s })
                &&& step == StepView::Connect
            } else if payload[3] == 0x2f && cfg.tls_available {
                &&& after == (SessionView { phase: Phase::TlsHandshake, ..s })
                &&& step == StepView::StartTls(seq![0x53u8])
            } else {
                &&& after == (SessionView { phase: Phase::StartupLength, ..s })
                &&& step == (StepView::Reply { reply: seq![0x4eu8], read: 4 })
            }
        }),
{
    encryption_code(payload[0], payload[1], payload[2], payload[3]);
}

proof fn encryption_code(a: u8, b: u8, c: u8, d: u8)
    requires
        a == 0x04 && b == 0xd2 && c == 0x16,
        d == 0x2f || d == 0x30,
    ensures
        (a * 16777216 + b * 65536 + c * 256 + d) == if d == 0x2f {
            80877103int
        } else {
            80877104int
        },
        (a * 16777216 + b * 65536 + c * 256 + d) / 65536 == 1234,
{
}

/// A payload that is neither a request for encryption nor a startup message of the
/// third protocol version, a CancelRequest among them, goes to PostgreSQL without
/// being judged.
pub proof fn other_payloads_are_not_judged(
    s: SessionView,
    payload: Seq<u8>,
    cfg: ProxyConfig,
    now: TimeOfDay,
)
    requires
        s.phase == Phase::StartupPayload,
        s.wanted == payload.len(),
        payload.len() >= 4,
        !(payload[0] == 0 && payload[1] == 3),
        !(payload[0] == 0x04 && payload[1] == 0xd2 && payload[2] == 0x16 && (payload[3] == 0x2f
            || payload[3] == 0x30)),
    ensures
        session::next(s, EventView::Received(payload), cfg, now) == (
            SessionView { phase: Phase::Connecting, payload, ..s },
            StepView::Connect,
        ),
{
    other_code(payload[0], payload[1], payload[2], payload[3]);
}

proof fn other_code(a: u8, b: u8, c: u8, d: u8)
    requires
        !(a == 0 && b == 3),
        !(a == 0x04 && b == 0xd2 && c == 0x16 && (d == 0x2f || d == 0x30)),
    ensures
        (a * 16777216 + b * 65536 + c * 256 + d) / 65536 != 3,
        (a * 16777216 + b * 65536 + c * 256 + d) != 80877103,
        (a * 16777216 + b * 65536 + c * 256 + d) != 80877104,
{
}

/// The end of the TLS handshake makes the connection secure, and the startup phase
/// begins again.
pub proof fn a_tls_handshake_secures_the_connection(
    s: SessionView,
    cfg: ProxyConfig,
    now: TimeOfDay,
)
    requires
        s.phase == Phase::TlsHandshake,
    ensures
        session::next(s, EventView::TlsEstablished, cfg, now) == (
            SessionView { phase: Phase::StartupLength, secure: true, ..s },
            StepView::Read(4),
        ),
{
}

/// A CancelRequest is sent on as it came; any other payload is sent on with the
/// client's address in it. Either goes out behind its length word, and then the first
/// message is waited for.
pub proof fn the_server_gets_the_startup_message(s: SessionView, cfg: ProxyConfig, now: TimeOfDay)
    requires
        s.phase == Phase::Connecting,
        s.payload.len() >= 4,
    ensures
        ({
            let (after, step) = session::next(s, EventView::UpstreamConnected, cfg, now);
            let cancels = s.payload[0] == 0x04 && s.payload[1] == 0xd2 && s.payload[2] == 0x16
                && s.payload[3] == 0x2e;
            let sent = if cancels {
                s.payload
            } else {
                protocol::injected(s.payload, s.client_ip)
            };
            &&& after == (SessionView { phase: Phase::FrameHeader, ..s })
            &&& step == (StepView::Forward {
                packet: protocol::be32((sent.len() + 4) as nat) + sent,
                read: 5,
            })
        }),
{
    cancel_code(s.payload[0], s.payload[1], s.payload[2], s.payload[3]);
}

proof fn cancel_code(a: u8, b: u8, c: u8, d: u8)
    ensures
        (a * 16777216 + b * 65536 + c * 256 + d) == 80877102 <==> a == 0x04 && b == 0xd2 && c
            == 0x16 && d == 0x2e,
{
}

/// Where PostgreSQL cannot be reached, the client is told so.
pub proof fn an_unreachable_server_is_reported(s: SessionView, cfg: ProxyConfig, now: TimeOfDay)
    requires
        s.phase == Phase::Connecting,
    ensures
        session::next(s, EventView::UpstreamUnreachable, cfg, now) == (
            SessionView { phase: Phase::Closed, ..s },
            StepView::Refuse {
                reply: protocol::error_response(
                    "PG-Prism could not reach the upstream PostgreSQL server"@,
                    "08006"@,
                ),
                reason: "PG-Prism could not reach the upstream PostgreSQL server"@,
            },
        ),
{
}

// ---- the beginning of a connection --------------------------------------

/// A peer is listened to exactly where the allowlist trusts it; any other is turned
/// away without a word.
pub proof fn only_trusted_peers_are_listened_to(
    s: SessionView,
    peer: IpAddress,
    cfg: ProxyConfig,
    now: TimeOfDay,
)
    requires
        s.phase == Phase::Accepting,
    ensures
        session::next(s, EventView::Accepted(peer), cfg, now) == if trust::trusts(
            cfg.trusted.networks(),
            peer,
        ) {
            (SessionView { phase: Phase::Header, ..s }, StepView::Read(1))
        } else {
            (SessionView { phase: Phase::Closed, ..s }, StepView::Close)
        },
{
}

/// Nothing is known of a client to begin with.
pub proof fn a_session_begins_with_nothing()
    ensures
        session::fresh().phase == Phase::Accepting,
        session::fresh().header.len() == 0,
        session::fresh().client_ip.len() == 0,
        !session::fresh().secure,
        session::fresh().payload.len() == 0,
        session::fresh().decision is None,
        session::fresh().rule is None,
        session::fresh().frame.len() == 0,
{
}

/// The PROXY header is read to the end of its line, one byte at a time. A line that
/// names a client begins the startup phase with that client's address; one that does
/// not, and one that has not ended when the limit is reached, is refused.
pub proof fn the_header_is_read_to_the_end_of_its_line(
    s: SessionView,
    byte: u8,
    cfg: ProxyConfig,
    now: TimeOfDay,
)
    requires
        s.phase == Phase::Header,
    ensures
        ({
            let header = s.header.push(byte);
            let (after, step) = session::next(s, EventView::Received(seq![byte]), cfg, now);
            let limit = cfg.limits.max_proxy_header_len as nat;
            if byte == 0x0a {
                match proxy::proxied_client(text::lossy_text(header)) {
                    Ok(ip) => {
                        &&& after == (SessionView {
                            phase: Phase::StartupLength,
                            header,
                            client_ip: ip,
                            ..s
                        })
                        &&& step == StepView::Read(4)
                    },
                    Err(why) => {
                        &&& after == (SessionView { phase: Phase::Closed, header, ..s })
                        &&& step == (StepView::Refuse {
                            reply: protocol::error_response(why, "08P01"@),
                            reason: why,
                        })
                    },
                }
            } else if header.len() < limit {
                &&& after == (SessionView { header, ..s })
                &&& step == StepView::Read(1)
            } else {
                let why = "PROXY header exceeded "@ + text::decimal(limit)
                    + " bytes without a line terminator"@;
                &&& after == (SessionView { phase: Phase::Closed, header, ..s })
                &&& step == (StepView::Refuse {
                    reply: protocol::error_response(why, "08P01"@),
                    reason: why,
                })
            }
        }),
{
    assert(s.header + seq![byte] == s.header.push(byte));
}

/// The address in a PROXY header is the third of the words that blanks separate.
pub proof fn the_third_word_names_the_client(
    line: Seq<char>,
    first: Seq<char>,
    second: Seq<char>,
    third: Seq<char>,
    rest: Seq<char>,
)
    requires
        line.len() >= 5,
        line[0] == 'P' && line[1] == 'R' && line[2] == 'O' && line[3] == 'X' && line[4] == 'Y',
        !first.contains(' '),
        !second.contains(' '),
        !third.contains(' '),
        third.len() > 0,
        text::trimmed(line) == first.push(' ') + second.push(' ') + third || text::trimmed(line)
            == first.push(' ') + second.push(' ') + third.push(' ') + rest,
    ensures
        proxy::proxied_client(line) == Ok::<Seq<char>, Seq<char>>(third),
{
    reveal_strlit("PROXY");
    assert(line.take(5) == "PROXY"@);
    let two = first.push(' ') + second;
    let three = two.push(' ') + third;
    texts::what_holds_no_separator_is_one_piece(first, ' ');
    texts::a_separator_ends_a_piece(first, ' ', second);
    texts::a_separator_ends_a_piece(two, ' ', third);
    assert(text::split_on(three, ' ') == seq![first, second, third]);
    assert(first.push(' ') + second.push(' ') + third == three);
    assert(first.push(' ') + second.push(' ') + third.push(' ') + rest == three.push(' ') + rest);
    text::split_on_prefix(three, rest, ' ');
    let all = text::split_on(three.push(' ') + rest, ' ');
    assert(all.take(3)[2] == all[2]);
}

/// A line that does not begin with `PROXY`, or has no third word, names no client.
pub proof fn a_line_without_a_third_word_names_no_client(
    line: Seq<char>,
    first: Seq<char>,
    second: Seq<char>,
    rest: Seq<char>,
)
    requires
        !first.contains(' '),
        !second.contains(' '),
    ensures
        !(line.len() >= 5 && line[0] == 'P' && line[1] == 'R' && line[2] == 'O' && line[3] == 'X'
            && line[4] == 'Y') ==> proxy::proxied_client(line) == Err::<Seq<char>, Seq<char>>(
            "connection did not begin with a PROXY protocol v1 header"@,
        ),
        line.len() >= 5 && line[0] == 'P' && line[1] == 'R' && line[2] == 'O' && line[3] == 'X'
            && line[4] == 'Y' && (text::trimmed(line) == first || text::trimmed(line)
            == first.push(' ') + second || text::trimmed(line) == first.push(' ') + second.push(' ')
            || text::trimmed(line) == first.push(' ') + second.push(' ').push(' ') + rest)
            ==> proxy::proxied_client(line) == Err::<Seq<char>, Seq<char>>(
            "malformed PROXY header: "@ + text::quoted(text::trimmed(line)),
        ),
{
    reveal_strlit("PROXY");
    let named = line.len() >= 5 && line[0] == 'P' && line[1] == 'R' && line[2] == 'O' && line[3]
        == 'X' && line[4] == 'Y';
    if named {
        assert(line.take(5) == "PROXY"@);
        let empty = Seq::<char>::empty();
        let two = first.push(' ') + second;
        texts::what_holds_no_separator_is_one_piece(first, ' ');
        texts::a_separator_ends_a_piece(first, ' ', second);
        texts::a_separator_ends_a_piece(two, ' ', empty);
        let three = two.push(' ');
        assert(three + empty == three);
        assert(text::split_on(two, ' ') == seq![first, second]);
        assert(text::split_on(three, ' ') == seq![first, second, empty]);
        assert(first.push(' ') + second.push(' ') == three);
        assert(first.push(' ') + second.push(' ').push(' ') + rest == three.push(' ') + rest);
        text::split_on_prefix(three, rest, ' ');
        let all = text::split_on(three.push(' ') + rest, ' ');
        assert(all.take(3)[2] == all[2]);
    } else if proxy::begins_with(line, "PROXY"@) {
        let head = line.take(5);
        assert(head[0] == line[0] && head[1] == line[1] && head[2] == line[2] && head[3] == line[3]
            && head[4] == line[4]);
    }
}

/// A startup-phase packet has at least eight bytes, its length word and a code, and no
/// more than the limit; as much is read as the length word counts behind itself. Any
/// other length is refused before a byte of the packet is read.
pub proof fn startup_packets_are_read_within_their_limits(
    s: SessionView,
    a: u8,
    b: u8,
    c: u8,
    d: u8,
    cfg: ProxyConfig,
    now: TimeOfDay,
)
    requires
        s.phase == Phase::StartupLength,
    ensures
        ({
            let declared = (a * 0x100_0000 + b * 0x1_0000 + c * 0x100 + d) as nat;
            let limit = cfg.limits.max_startup_len as nat;
            let (after, step) = session::next(
                s,
                EventView::Received(seq![a, b, c, d]),
                cfg,
                now,
            );
            if 8 <= declared <= limit {
                &&& after == (SessionView {
                    phase: Phase::StartupPayload,
                    wanted: (declared - 4) as nat,
                    ..s
                })
                &&& step == StepView::Read((declared - 4) as nat)
            } else {
                let why = if declared < 8 {
                    "startup packet length "@ + text::decimal(declared) + " is below the "@
                        + text::decimal(8) + "-byte minimum"@
                } else {
                    "startup packet length "@ + text::decimal(declared) + " exceeds the "@
                        + text::decimal(limit) + "-byte limit"@
                };
                &&& after == (SessionView { phase: Phase::Closed, ..s })
                &&& step == (StepView::Refuse {
                    reply: protocol::error_response(why, "08P01"@),
                    reason: why,
                })
            }
        }),
{
}

// ---- what is known of the bytes that are read ---------------------------

/// The line of a PROXY header that is valid UTF-8 is read as the text that it encodes.
pub proof fn a_header_line_is_read_as_it_is(s: SessionView, cfg: ProxyConfig, now: TimeOfDay)
    requires
        s.phase == Phase::Header,
        session::reads_exactly(s, EventView::Received(seq![0x0au8]), cfg, now),
        valid_utf8(s.header.push(0x0a)),
    ensures
        text::lossy_text(s.header.push(0x0a)) == decode_utf8(s.header.push(0x0a)),
{
    assert(s.header + seq![0x0au8] == s.header.push(0x0a));
}

/// A user and a database that are valid UTF-8 are read as the texts that they encode,
/// and the commands in ASCII that the deciding rule blocks have the upper-case form that
/// ASCII gives them.
pub proof fn a_startup_message_is_read_as_it_is(
    s: SessionView,
    payload: Seq<u8>,
    value: Seq<u8>,
    i: int,
    cfg: ProxyConfig,
    now: TimeOfDay,
)
    requires
        s.phase == Phase::StartupPayload,
        s.wanted == payload.len(),
        payload.len() >= 4,
        payload[0] == 0 && payload[1] == 3,
        session::reads_exactly(s, EventView::Received(payload), cfg, now),
    ensures
        ({
            let params = protocol::startup_parameters(payload);
            let (user, db) = protocol::startup_identity(payload);
            let commands = guardian::applicable_commands(
                cfg.guardian.rules@,
                s.client_ip,
                user,
                db,
                now,
            );
            &&& protocol::parameter(params, encode_utf8("user"@)) == Some(value) && valid_utf8(value)
                ==> text::lossy_text(value) == decode_utf8(value)
            &&& protocol::parameter(params, encode_utf8("database"@)) == Some(value) && valid_utf8(
                value,
            ) ==> text::lossy_text(value) == decode_utf8(value)
            &&& 0 <= i < commands.len() && is_ascii_chars(commands[i]) ==> text::uppercase(
                commands[i],
            ) == commands[i].map_values(|c: char| text::ascii_upper(c))
        }),
{
    a_version_three_payload_is_a_startup_message(payload);
}

/// The application names of a startup message that is sent on are known to decode.
pub proof fn application_names_are_read_as_they_are(
    s: SessionView,
    cfg: ProxyConfig,
    now: TimeOfDay,
)
    requires
        s.phase == Phase::Connecting,
        s.payload.len() >= 4,
        s.payload[0] == 0 && s.payload[1] == 3,
        session::reads_exactly(s, EventView::UpstreamConnected, cfg, now),
    ensures
        protocol::names_decode(protocol::startup_parameters(s.payload)),
{
    a_version_three_payload_is_a_startup_message(s.payload);
}

// ---- what ends a connection ---------------------------------------------

/// A connection is closed when the client goes away, when bytes come that are not as
/// many as were asked for, and on any event that it does not wait for.
pub proof fn what_is_not_waited_for_ends_the_connection(
    s: SessionView,
    event: EventView,
    cfg: ProxyConfig,
    now: TimeOfDay,
)
    requires
        match event {
            EventView::Accepted(_) => s.phase != Phase::Accepting,
            EventView::Received(bytes) => match s.phase {
                Phase::Header => bytes.len() != 1,
                Phase::StartupLength => bytes.len() != 4,
                Phase::StartupPayload => bytes.len() != s.wanted,
                Phase::FrameHeader => bytes.len() != 5,
                Phase::Statement => bytes.len() != s.wanted,
                _ => true,
            },
            EventView::TlsEstablished => s.phase != Phase::TlsHandshake,
            EventView::UpstreamConnected => s.phase != Phase::Connecting,
            EventView::UpstreamUnreachable => s.phase != Phase::Connecting,
            EventView::PassedThrough => s.phase != Phase::PassingThrough,
            EventView::Ended => true,
        },
    ensures
        session::next(s, event, cfg, now) == (
            SessionView { phase: Phase::Closed, ..s },
            StepView::Close,
        ),
{
}

// ---- events and steps ---------------------------------------------------

/// An event is what it carries.
pub proof fn an_event_is_what_it_carries(peer: IpAddress, bytes: Vec<u8>)
    ensures
        Event::Accepted(peer)@ == EventView::Accepted(peer),
        Event::Received(bytes)@ == EventView::Received(bytes@),
        Event::TlsEstablished@ == EventView::TlsEstablished,
        Event::UpstreamConnected@ == EventView::UpstreamConnected,
        Event::UpstreamUnreachable@ == EventView::UpstreamUnreachable,
        Event::PassedThrough@ == EventView::PassedThrough,
        Event::Ended@ == EventView::Ended,
{
}

/// A step is what it carries.
pub proof fn a_step_is_what_it_carries(
    n: usize,
    bytes: Vec<u8>,
    word: BlockedWord,
    reason: String,
)
    ensures
        Step::Read(n)@ == StepView::Read(n as nat),
        (Step::Reply { reply: bytes, read: n })@ == (StepView::Reply {
            reply: bytes@,
            read: n as nat,
        }),
        Step::StartTls(bytes)@ == StepView::StartTls(bytes@),
        Step::Connect@ == StepView::Connect,
        (Step::Forward { packet: bytes, read: n })@ == (StepView::Forward {
            packet: bytes@,
            read: n as nat,
        }),
        (Step::PassThrough { header: bytes, len: n })@ == (StepView::PassThrough {
            header: bytes@,
            len: n as nat,
        }),
        (Step::Block { reply: bytes, read: n, word: Some(word) })@ == (StepView::Block {
            reply: bytes@,
            read: n as nat,
            word: Some(word@),
        }),
        (Step::Block { reply: bytes, read: n, word: None })@ == (StepView::Block {
            reply: bytes@,
            read: n as nat,
            word: None,
        }),
        (Step::Refuse { reply: bytes, reason })@ == (StepView::Refuse {
            reply: bytes@,
            reason: reason@,
        }),
        Step::Close@ == StepView::Close,
{
}

} // verus!
