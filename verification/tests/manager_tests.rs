use trfilter::errors::{FileNotFoundError, ParseError};
use trfilter::manager::{
    mk_rules, read_rules, suggest_rules, suggest_summary, update_rules, usize_to_string,
};
use trfilter::rule::{parse, serialize, Action, Pathtype};
use trfilter::scanner::{marker_candidates, scan_for_git};

#[test]
fn read_rules_parses_every_line() {
    let lines = vec!["[Ignore] /a".to_string(), "[Sync, Priority=2] b".to_string()];
    let rules = read_rules(&lines).unwrap();
    assert_eq!(rules.len(), 2);
    assert_eq!(rules[0].action, Action::Ignore);
    assert_eq!(rules[1].prio, 2);
}

#[test]
fn read_rules_is_all_or_nothing() {
    let lines = vec!["[Ignore] /a".to_string(), "broken".to_string()];
    assert_eq!(read_rules(&lines), Err(ParseError::Structure));
    let lines2 = vec!["[Ignore] /a".to_string(), "".to_string()];
    assert!(read_rules(&lines2).is_err());
}

#[test]
fn read_rules_reports_the_first_failing_line() {
    let lines = vec![
        "[Ignore] /ok".to_string(),
        "[Ignore]   ".to_string(),
        "broken".to_string(),
    ];
    assert_eq!(read_rules(&lines), Err(ParseError::EmptyPattern));
}

#[test]
fn mk_rules_treats_absence_as_empty() {
    assert_eq!(mk_rules(&None), Ok(vec![]));
    let lines = vec!["[Junk] x".to_string()];
    let rules = mk_rules(&Some(lines)).unwrap();
    assert_eq!(rules.len(), 1);
    assert_eq!(rules[0].action, Action::Junk);
}

#[test]
fn suggest_skips_candidates_whose_glob_is_already_covered() {
    // The existing rule writes the pattern one way, the candidate another;
    // both translate to the glob `./.git`, so nothing new is suggested.
    let existing = vec![parse("[Ignore] /.git").unwrap()];
    let candidates = scan_for_git(".", true);
    assert_eq!(candidates[0].path, ".git");
    let accepted = suggest_rules(&existing, &candidates);
    assert_eq!(accepted.len(), 0);
}

#[test]
fn suggest_on_marker_only_directory_returns_one_candidate() {
    let existing = mk_rules(&None).unwrap();
    let candidates = marker_candidates(".", &vec![".git".to_string()]);
    let accepted = suggest_rules(&existing, &candidates);
    assert_eq!(accepted.len(), 1);
    assert_eq!(accepted[0].action, Action::Ignore);
    assert_eq!(accepted[0].path_type, Pathtype::Dir);
    assert_eq!(accepted[0].path, ".git");
    assert_eq!(suggest_summary(accepted.len()), "1 new rule suggested.");
}

#[test]
fn suggest_drops_duplicates_within_the_batch() {
    let existing = vec![];
    let mut candidates = scan_for_git(".", true);
    candidates.extend(scan_for_git(".", true));
    assert_eq!(candidates.len(), 2);
    let accepted = suggest_rules(&existing, &candidates);
    assert_eq!(accepted.len(), 1);
}

#[test]
fn update_appends_in_discovery_order() {
    let existing = vec![parse("[Ignore] /a").unwrap(), parse("[Junk] /b").unwrap()];
    let candidates = vec![parse("[Ignore] /c").unwrap(), parse("[Ignore] /d").unwrap()];
    let merged = update_rules(&existing, &candidates);
    let lines: Vec<String> = merged.iter().map(serialize).collect();
    assert_eq!(lines, vec!["[Ignore] /a", "[Junk] /b", "[Ignore] /c", "[Ignore] /d"]);
}

#[test]
fn second_upgrade_suggests_nothing() {
    let existing = vec![parse("[Sync] /kept").unwrap()];
    let candidates = marker_candidates(".", &vec![".git".to_string(), ".hg".to_string()]);
    let merged = update_rules(&existing, &candidates);
    assert_eq!(merged.len(), 3);
    // No tree changes: the scanner reports the same candidates again.
    let second = suggest_rules(&merged, &candidates);
    assert_eq!(second.len(), 0);
    let merged_again = update_rules(&merged, &candidates);
    assert_eq!(merged_again, merged);
}

#[test]
fn summary_counts_in_words() {
    assert_eq!(suggest_summary(0), "No new rules to suggest.");
    assert_eq!(suggest_summary(1), "1 new rule suggested.");
    assert_eq!(suggest_summary(2), "2 new rules suggested.");
    assert_eq!(suggest_summary(42), "42 new rules suggested.");
}

#[test]
fn counts_render_in_decimal() {
    assert_eq!(usize_to_string(0), "0");
    assert_eq!(usize_to_string(7), "7");
    assert_eq!(usize_to_string(10), "10");
    assert_eq!(usize_to_string(905), "905");
}

#[test]
fn missing_file_error_has_its_message() {
    assert_eq!(FileNotFoundError.message(), "Filter file not found");
}
