use pg_prism::clock::TimeOfDay;
use pg_prism::guardian::{
    blocked_command, format_time, is_hhmm, time_in_range, Action, BlockedWord, ConfigRead, ConnectionContext,
    Guardian, GuardianConfig, Rule,
};

// ---- time_in_range ----------------------------------------------------------

#[test]
fn a_daytime_range_behaves_normally() {
    assert!(time_in_range("09:30", "09:00-17:00"));
    assert!(time_in_range("09:00", "09:00-17:00"), "start is inclusive");
    assert!(time_in_range("17:00", "09:00-17:00"), "end is inclusive");
    assert!(!time_in_range("08:59", "09:00-17:00"));
    assert!(!time_in_range("17:01", "09:00-17:00"));
}

#[test]
fn an_overnight_range_wraps_around_midnight() {
    for t in ["22:00", "23:59", "00:00", "03:00", "06:00"] {
        assert!(time_in_range(t, "22:00-06:00"), "{} should be inside", t);
    }
    for t in ["21:59", "06:01", "12:00"] {
        assert!(!time_in_range(t, "22:00-06:00"), "{} should be outside", t);
    }
}

#[test]
fn a_malformed_range_matches_nothing() {
    for range in [
        "",
        "09:00",
        "09:00-",
        "-17:00",
        "9:00-17:00",
        "25:00-26:00",
        "09:60-10:00",
        "nine-five",
    ] {
        assert!(
            !time_in_range("12:00", range),
            "{:?} should match nothing",
            range
        );
    }
}

#[test]
fn whitespace_around_a_range_is_tolerated() {
    assert!(time_in_range("12:00", " 09:00 - 17:00 "));
}

#[test]
fn times_are_five_characters() {
    for s in ["00:00", "23:59", "09:05"] {
        assert!(is_hhmm(s), "{:?}", s);
    }
    for s in ["24:00", "00:60", "0:000", "000:0", "12-30", "1a:00", "12:3", "12:300", "٠٩:00", ""] {
        assert!(!is_hhmm(s), "{:?}", s);
    }
    assert_eq!(format_time(TimeOfDay { hour: 7, minute: 5 }), "07:05");
    assert_eq!(format_time(TimeOfDay { hour: 23, minute: 40 }), "23:40");
}

#[test]
fn a_range_of_one_minute_holds_that_minute() {
    assert!(time_in_range("12:00", "12:00-12:00"));
    assert!(!time_in_range("12:01", "12:00-12:00"));
    assert!(!time_in_range("12:00", "09:00-12:00-17:00"));
}

// ---- loading ----------------------------------------------------------------

fn rule(name: &str, action: Action) -> Rule {
    Rule {
        name: name.to_string(),
        action,
        ips: None,
        users: None,
        databases: None,
        time_range: None,
        block_queries: None,
        block_tables: None,
    }
}

fn list(items: &[&str]) -> Option<Vec<String>> {
    Some(items.iter().map(|s| s.to_string()).collect())
}

#[test]
fn a_missing_file_means_no_rules_and_is_not_an_error() {
    let g = Guardian::load("definitely-not-a-real-path.yaml", ConfigRead::Missing).unwrap();
    assert!(g.rules.is_empty());
}

#[test]
fn a_malformed_file_is_fatal_rather_than_allow_all() {
    let err = Guardian::load(
        "guardian.yaml",
        ConfigRead::Malformed("rules[0].action: unknown variant".to_string()),
    )
    .expect_err("a malformed config was accepted");
    let msg = err.message();
    assert!(
        msg.contains("Refusing to start"),
        "unhelpful error: {}",
        msg
    );
    assert_eq!(
        msg,
        "Guardian config guardian.yaml could not be parsed: rules[0].action: unknown variant. \
         Refusing to start: continuing would silently run with no rules at all."
    );
}

#[test]
fn a_valid_file_loads_its_rules() {
    let mut block_drops = rule("block-drops", Action::INSPECT);
    block_drops.block_queries = list(&["DROP"]);
    let g = Guardian::load(
        "guardian.yaml",
        ConfigRead::Parsed(GuardianConfig { rules: vec![block_drops] }),
    )
    .unwrap();
    assert_eq!(g.rules.len(), 1);
    assert_eq!(g.rules[0].name, "block-drops");
}

#[test]
fn a_misspelled_rule_field_is_silently_ignored() {
    // A field that no rule has does not survive parsing.
    let g = Guardian::load(
        "guardian.yaml",
        ConfigRead::Parsed(GuardianConfig { rules: vec![rule("block-drops", Action::INSPECT)] }),
    )
    .expect("current behaviour: the typo is accepted");
    assert_eq!(g.rules.len(), 1, "the rule loads and is counted");
    let ctx = g.check_connection("10.0.0.1", "alice", "shop");
    assert!(
        ctx.block_queries.is_empty(),
        "the misspelled list did not survive parsing"
    );
    assert!(Guardian::check_query(b"DROP TABLE secrets", &ctx));
}

#[test]
fn a_malformed_toplevel_shape_is_correctly_fatal() {
    let err = Guardian::load(
        "guardian.yaml",
        ConfigRead::Malformed("missing field `rules`".to_string()),
    )
    .expect_err("a missing `rules` key must be fatal");
    assert!(err.message().contains("Refusing to start"));
}

#[test]
fn one_unparseable_cidr_silently_removes_addresses_from_a_deny_rule() {
    let mut deny_office = rule("deny-office", Action::DENY);
    deny_office.ips = list(&["10.0.0.0/8", "192.168.1.0/244"]);
    let g = Guardian { rules: vec![deny_office] };
    assert_eq!(
        g.check_connection("10.1.2.3", "alice", "shop").action,
        Action::DENY,
        "the entry that parses still works"
    );
    assert_ne!(
        g.check_connection("192.168.1.50", "alice", "shop").action,
        Action::DENY
    );
}

#[test]
fn a_malformed_time_range_silently_disables_a_deny_rule() {
    let mut deny_nights = rule("deny-nights", Action::DENY);
    deny_nights.time_range = Some("10pm-6am".to_string());
    let g = Guardian { rules: vec![deny_nights] };
    assert_ne!(
        g.check_connection("10.0.0.1", "alice", "shop").action,
        Action::DENY
    );
}

#[test]
fn rules_that_miss_a_family_are_flagged() {
    let with = |name: &str, ips: &[&str]| {
        let mut r = rule(name, Action::DENY);
        r.ips = list(ips);
        r
    };
    let g = Guardian {
        rules: vec![
            rule("any", Action::ALLOW),
            with("none", &["nonsense", "10.0.0.1/8"]),
            with("four", &["0.0.0.0/0", "nonsense"]),
            with("both", &["0.0.0.0/0", "::/0"]),
            with("six", &["::1"]),
            with("empty", &[]),
        ],
    };
    assert_eq!(
        g.warn_about_unreachable_rules(),
        vec![
            "Guardian rule 'none' lists addresses but none of them parse as CIDR blocks; \
             the rule can never match.",
            "Guardian rule 'four' lists only IPv4 addresses, so it will not match IPv6 clients. \
             Note that 0.0.0.0/0 is the IPv4 default route, not a catch-all: omit `ips` entirely \
             to match any address, or add ::/0 alongside it.",
            "Guardian rule 'six' lists only IPv6 addresses, so it will not match IPv4 clients.",
            "Guardian rule 'empty' lists addresses but none of them parse as CIDR blocks; \
             the rule can never match.",
        ]
    );
}

// ---- connections ------------------------------------------------------------

#[test]
fn a_rule_without_addresses_matches_both_families() {
    let mut r = rule("inspect-everything", Action::INSPECT);
    r.block_queries = list(&["DROP"]);
    r.block_tables = list(&[]);
    let g = Guardian { rules: vec![r] };
    for ip in ["10.0.0.5", "2001:db8::1"] {
        let ctx = g.check_connection(ip, "app_user", "shop");
        assert_eq!(ctx.action, Action::INSPECT);
        assert!(
            !ctx.block_queries.is_empty(),
            "{} did not pick up the rule's block list",
            ip
        );
    }
}

#[test]
fn the_ipv4_default_route_does_not_cover_ipv6_clients() {
    let mut r = rule("catch-all-that-is-not", Action::INSPECT);
    r.ips = list(&["0.0.0.0/0"]);
    r.block_queries = list(&["DROP"]);
    let g = Guardian { rules: vec![r] };

    let v4 = g.check_connection("10.0.0.5", "app_user", "shop");
    assert!(!v4.block_queries.is_empty(), "IPv4 client should match");

    let v6 = g.check_connection("2001:db8::1", "app_user", "shop");
    assert!(v6.block_queries.is_empty());
}

#[test]
fn the_first_rule_that_applies_decides() {
    let mut by_user = rule("alice", Action::ALLOW);
    by_user.users = list(&["bob", "alice"]);
    let mut by_db = rule("shop", Action::INSPECT);
    by_db.databases = list(&["shop"]);
    by_db.block_queries = list(&["drop", "straße"]);
    by_db.block_tables = list(&["Secrets"]);
    let mut by_ip = rule("office", Action::DENY);
    by_ip.ips = list(&["junk", "10.0.0.0/8"]);
    let g = Guardian { rules: vec![by_user, by_db, by_ip] };

    assert_eq!(g.check_connection("10.0.0.1", "alice", "shop").action, Action::ALLOW);
    let ctx = g.check_connection("10.0.0.1", "carol", "shop");
    assert_eq!(ctx.action, Action::INSPECT);
    assert_eq!(ctx.block_queries, vec![b"DROP".to_vec(), "STRASSE".as_bytes().to_vec()]);
    assert_eq!(ctx.block_tables, vec![b"Secrets".to_vec()]);
    assert_eq!(g.check_connection("10.0.0.1", "carol", "hr").action, Action::DENY);
    let ctx = g.check_connection("11.0.0.1", "carol", "hr");
    assert_eq!(ctx.action, Action::INSPECT);
    assert!(ctx.block_queries.is_empty() && ctx.block_tables.is_empty());
}

#[test]
fn the_rule_that_decides_is_named() {
    let mut by_user = rule("alice", Action::ALLOW);
    by_user.users = list(&["alice"]);
    let g = Guardian { rules: vec![by_user] };
    let noon = TimeOfDay { hour: 12, minute: 0 };
    let found = g.match_connection_at("10.0.0.1", "alice", "shop", noon);
    assert_eq!(found.rule.as_deref(), Some("alice"));
    assert_eq!(found.context.action, Action::ALLOW);
    let found = g.match_connection_at("10.0.0.1", "bob", "shop", noon);
    assert_eq!(found.rule, None);
    assert_eq!(found.context.action, Action::INSPECT);
    let found = g.match_connection_at("nowhere", "alice", "shop", noon);
    assert_eq!(found.rule, None);
    assert_eq!(found.context.action, Action::DENY);
}

#[test]
fn what_is_no_address_is_denied() {
    let g = Guardian { rules: vec![rule("any", Action::ALLOW)] };
    for ip in ["", "UNKNOWN", "10.0.0", "10.0.0.1/32", "10.0.0.1\0"] {
        assert_eq!(g.check_connection(ip, "a", "b").action, Action::DENY, "{:?}", ip);
    }
}

#[test]
fn a_time_range_holds_at_its_times() {
    let mut nights = rule("nights", Action::DENY);
    nights.time_range = Some("22:00-06:00".to_string());
    let g = Guardian { rules: vec![nights] };
    let at = |hour, minute| {
        g.check_connection_at("10.0.0.1", "a", "b", TimeOfDay { hour, minute }).action
    };
    assert_eq!(at(22, 0), Action::DENY);
    assert_eq!(at(0, 0), Action::DENY);
    assert_eq!(at(6, 0), Action::DENY);
    assert_eq!(at(6, 1), Action::INSPECT);
    assert_eq!(at(21, 59), Action::INSPECT);
}

#[test]
fn a_rule_for_the_whole_day_holds_now() {
    let mut always = rule("always", Action::DENY);
    always.time_range = Some("00:00-23:59".to_string());
    let g = Guardian { rules: vec![always] };
    assert_eq!(g.check_connection("10.0.0.1", "a", "b").action, Action::DENY);
}

// ---- statements -------------------------------------------------------------

fn context(action: Action, commands: &[&str], tables: &[&str]) -> ConnectionContext {
    ConnectionContext {
        action,
        block_queries: commands.iter().map(|s| s.as_bytes().to_vec()).collect(),
        block_tables: tables.iter().map(|s| s.as_bytes().to_vec()).collect(),
    }
}

#[test]
fn allow_permits_and_deny_refuses_everything() {
    assert!(Guardian::check_query(b"DROP TABLE t", &context(Action::ALLOW, &["DROP"], &["t"])));
    assert!(!Guardian::check_query(b"SELECT 1", &context(Action::DENY, &[], &[])));
    assert!(Guardian::check_query(b"DROP TABLE t", &context(Action::INSPECT, &[], &[])));
}

#[test]
fn words_are_matched_whole_and_in_any_case() {
    let ctx = context(Action::INSPECT, &["DROP"], &["secrets"]);
    for q in [
        "drop table x",
        "DrOp TABLE x",
        "/*drop*/",
        "x;DROP",
        "select * from SECRETS",
        "select 'secrets'",
        "select a.secrets.b",
        "eavesdropping; DROP",
    ] {
        assert!(!Guardian::check_query(q.as_bytes(), &ctx), "{:?}", q);
    }
    for q in [
        "select * from eavesdropping",
        "dropped",
        "_drop",
        "drop$",
        "drop1",
        "drop_",
        "secrets_backup",
        "édrop",
        "",
        "dro",
    ] {
        assert!(Guardian::check_query(q.as_bytes(), &ctx), "{:?}", q);
    }
}

#[test]
fn dollar_quotes_and_numbers_hide_no_word() {
    let ctx = context(Action::INSPECT, &["DROP", "UNION"], &["secrets"]);
    for q in [
        "DO $$DROP TABLE secrets$$",
        "crosstab($$SELECT a FROM secrets$$)",
        "FROM secrets$$",
        "$$drop",
        "$fn$DROP TABLE x$fn$",
        "$fn$select 1 from secrets$fn$",
        "$_1$drop$_1$",
        "SELECT 1UNION SELECT 2",
        "SELECT 12union",
        "$1drop",
        "$drop",
        "a$$drop",
    ] {
        assert!(!Guardian::check_query(q.as_bytes(), &ctx), "{:?}", q);
    }
    for q in [
        "drop$",
        "drop$1",
        "a$drop",
        "x1UNION",
        "_1union",
        "secrets$x",
        "$$dropped$$",
        "$$ eavesdropping $$",
        "$fn$raindrop$fn$",
        "é1drop",
    ] {
        assert!(Guardian::check_query(q.as_bytes(), &ctx), "{:?}", q);
    }
}

#[test]
fn the_first_blocked_command_comes_before_any_table() {
    let ctx = context(Action::INSPECT, &["TRUNCATE", "DROP"], &["a", "b"]);
    let word = |q: &[u8]| Guardian::find_blocked_word(q, &ctx);
    assert!(matches!(word(b"drop a; truncate b"), Some(BlockedWord::Command(w)) if w == b"TRUNCATE"));
    assert!(matches!(word(b"select b, a"), Some(BlockedWord::Table(w)) if w == b"a"));
    assert!(word(b"select 1").is_none());
    let ctx = context(Action::DENY, &["DROP"], &[]);
    assert!(Guardian::find_blocked_word(b"drop", &ctx).is_none());
}

#[test]
fn words_of_several_parts_match_as_they_stand() {
    let ctx = context(Action::INSPECT, &["DROP TABLE", "--"], &["hr.salary"]);
    assert!(!Guardian::check_query(b"drop table x", &ctx));
    assert!(Guardian::check_query(b"drop  table x", &ctx));
    assert!(!Guardian::check_query(b"a--b", &ctx));
    assert!(!Guardian::check_query(b"select * from HR.Salary", &ctx));
    assert!(Guardian::check_query(b"select * from hr.salary2", &ctx));
}

#[test]
fn commands_are_held_in_upper_case() {
    assert_eq!(blocked_command("drop"), b"DROP".to_vec());
    assert_eq!(blocked_command("straße"), "STRASSE".as_bytes().to_vec());
}

#[test]
fn a_long_statement_is_searched_to_its_end() {
    let ctx = context(Action::INSPECT, &["DROP"], &[]);
    let mut q = "dropped ".repeat(100).into_bytes();
    assert!(Guardian::check_query(&q, &ctx));
    q.extend_from_slice(b"drop");
    assert!(!Guardian::check_query(&q, &ctx));
}
