use trfilter::checker::check_rules;
use trfilter::rule::parse;

fn paths(items: &[&str]) -> Vec<String> {
    items.iter().map(|s| s.to_string()).collect()
}

#[test]
fn check_reports_matched_and_unmatched_rules() {
    let rules = vec![
        parse("[Ignore] /existingfile").unwrap(),
        parse("[Ignore] /doesnotexist").unwrap(),
    ];
    let walked = paths(&[".", "./existingfile"]);
    let matched = check_rules(&rules, &walked);
    assert_eq!(matched, vec![0]);
}

#[test]
fn check_matches_in_any_subdirectory() {
    let rules = vec![parse("[Ignore] //*.log").unwrap()];
    let walked = paths(&[".", "./a", "./a/b", "./a/b/x.log"]);
    assert_eq!(check_rules(&rules, &walked), vec![0]);
}

#[test]
fn check_skips_rules_with_bad_globs() {
    let rules = vec![
        parse("[Ignore] broken[").unwrap(),
        parse("[Ignore] /kept").unwrap(),
    ];
    let walked = paths(&["./broken[", "./kept"]);
    // The first rule's glob does not compile, so only the second can match.
    assert_eq!(check_rules(&rules, &walked), vec![1]);
}

#[test]
fn check_reports_indices_in_increasing_order() {
    let rules = vec![
        parse("[Ignore] /a").unwrap(),
        parse("[Ignore] /missing").unwrap(),
        parse("[Ignore] /c").unwrap(),
    ];
    let walked = paths(&["./c", "./a"]);
    assert_eq!(check_rules(&rules, &walked), vec![0, 2]);
}

#[test]
fn check_with_no_paths_matches_nothing() {
    let rules = vec![parse("[Ignore] /a").unwrap()];
    assert_eq!(check_rules(&rules, &paths(&[])), Vec::<usize>::new());
}
