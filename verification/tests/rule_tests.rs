use trfilter::errors::ParseError;
use trfilter::rule::{parse, serialize, Action, Pathtype, Rule, ThreadType, Timestamp};

fn rule(
    action: Action,
    ts: Timestamp,
    thr: ThreadType,
    prio: u32,
    path_type: Pathtype,
    case_sens: bool,
    path: &str,
) -> Rule {
    Rule { action, ts, thr, prio, path_type, case_sens, path: path.to_string() }
}

#[test]
fn parse_full_line() {
    let r = parse(
        "[Ignore, Date=Local, Thread=Priority, Priority=2, PathType=File, CaseSensitive=True] /foo/*.txt",
    )
    .unwrap();
    assert_eq!(
        r,
        rule(Action::Ignore, Timestamp::Local, ThreadType::High, 2, Pathtype::File, true, "/foo/*.txt")
    );
}

#[test]
fn parse_applies_defaults() {
    let r = parse("[Sync] /a").unwrap();
    assert_eq!(
        r,
        rule(Action::Sync, Timestamp::Remote, ThreadType::Norm, 3, Pathtype::All, false, "/a")
    );
}

#[test]
fn parse_bare_and_prefixed_forms() {
    let r = parse("[Sync=Junk, Unspecified, False] x").unwrap();
    assert_eq!(r.action, Action::Junk);
    assert_eq!(r.path_type, Pathtype::All);
    assert!(!r.case_sens);
    let r2 = parse("[Junk, PathType=Unspecified, CaseSensitive=False] x").unwrap();
    assert_eq!(r, r2);
}

#[test]
fn parse_accepts_any_attribute_order() {
    let a = parse("[CaseSensitive=True, Ignore, Priority=5] x").unwrap();
    let b = parse("[Ignore, Priority=5, CaseSensitive=True] x").unwrap();
    assert_eq!(a, b);
}

#[test]
fn parse_trims_whitespace() {
    let r = parse("[ Ignore ,  Priority=4 ]   foo bar  ").unwrap();
    assert_eq!(r.action, Action::Ignore);
    assert_eq!(r.prio, 4);
    assert_eq!(r.path, "foo bar");
}

#[test]
fn parse_trims_unicode_whitespace() {
    let r = parse("[\u{00a0}Ignore\u{2003}]\u{00a0}/x\u{3000}").unwrap();
    assert_eq!(r.action, Action::Ignore);
    assert_eq!(r.path, "/x");
}

#[test]
fn parse_fails_without_leading_bracket() {
    assert_eq!(parse("Ignore] /x"), Err(ParseError::Structure));
    assert_eq!(parse("x[Ignore] y"), Err(ParseError::Structure));
    assert_eq!(parse(""), Err(ParseError::Structure));
    assert_eq!(parse("   "), Err(ParseError::Structure));
}

#[test]
fn parse_fails_without_closing_bracket() {
    assert_eq!(parse("[Ignore /x"), Err(ParseError::Structure));
    assert_eq!(parse("[Ignore]"), Err(ParseError::Structure));
}

#[test]
fn parse_fails_on_empty_pattern() {
    assert_eq!(parse("[Ignore]   "), Err(ParseError::EmptyPattern));
}

#[test]
fn parse_fails_on_priority_out_of_range() {
    assert_eq!(parse("[Priority=9] x"), Err(ParseError::Attribute));
    assert_eq!(parse("[Priority=0] x"), Err(ParseError::Attribute));
    assert_eq!(parse("[Ignore, Priority=12] x"), Err(ParseError::Attribute));
}

#[test]
fn parse_fails_on_unknown_token() {
    assert_eq!(parse("[Ignore, Wibble] x"), Err(ParseError::Attribute));
    assert_eq!(parse("[] x"), Err(ParseError::Structure));
    assert_eq!(parse("[ ] x"), Err(ParseError::Attribute));
}

#[test]
fn parse_fails_on_repeated_kind() {
    assert_eq!(parse("[Ignore, Sync] x"), Err(ParseError::Attribute));
    assert_eq!(parse("[Date=Remote, Date=Local] x"), Err(ParseError::Attribute));
}

#[test]
fn parse_date_needs_its_prefix() {
    assert_eq!(parse("[Remote] x"), Err(ParseError::Attribute));
    assert_eq!(parse("[Normal] x"), Err(ParseError::Attribute));
}

#[test]
fn serialize_abbreviates_default_rules() {
    let r = rule(Action::Ignore, Timestamp::Remote, ThreadType::Norm, 3, Pathtype::All, false, "/x");
    assert_eq!(serialize(&r), "[Ignore] /x");
}

#[test]
fn serialize_writes_full_form() {
    let r = rule(Action::Junk, Timestamp::Local, ThreadType::High, 5, Pathtype::Dir, true, "a");
    assert_eq!(
        serialize(&r),
        "[Junk, Date=Local, Thread=Priority, Priority=5, PathType=Directory, CaseSensitive=True] a"
    );
}

#[test]
fn serialize_keeps_file_scope_explicit() {
    let r = rule(Action::Ignore, Timestamp::Remote, ThreadType::Norm, 3, Pathtype::File, false, "x");
    assert_eq!(
        serialize(&r),
        "[Ignore, Date=Remote, Thread=Normal, Priority=3, PathType=File, CaseSensitive=False] x"
    );
}

#[test]
fn round_trip_preserves_every_attribute() {
    let actions = [Action::Sync, Action::Ignore, Action::Junk];
    let dates = [Timestamp::Remote, Timestamp::Local];
    let threads = [ThreadType::Norm, ThreadType::High];
    let scopes = [Pathtype::File, Pathtype::Dir, Pathtype::All];
    for &action in &actions {
        for &ts in &dates {
            for &thr in &threads {
                for prio in 1..=5u32 {
                    for &path_type in &scopes {
                        for &case_sens in &[false, true] {
                            let r = rule(action, ts, thr, prio, path_type, case_sens, "/some/p*.txt");
                            let line = serialize(&r);
                            let back = parse(&line).unwrap();
                            assert_eq!(back, r, "line was: {}", line);
                        }
                    }
                }
            }
        }
    }
}

#[test]
fn round_trip_survives_odd_patterns() {
    for pat in ["a,b", "a[b", "x]", "with space", "//deep/**", "*.log"] {
        let r = rule(Action::Sync, Timestamp::Local, ThreadType::Norm, 2, Pathtype::All, false, pat);
        let back = parse(&serialize(&r)).unwrap();
        assert_eq!(back, r);
    }
}
