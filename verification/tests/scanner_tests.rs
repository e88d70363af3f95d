use trfilter::rule::{Action, Pathtype, ThreadType, Timestamp};
use trfilter::scanner::{
    has_extension, is_ignore_file, is_vcs_marker, join_path, marker_candidates, mk_simple_rule,
    scan_for_git, scan_ignore, vcs_marker_names,
};

#[test]
fn recognizes_vcs_markers() {
    assert!(is_vcs_marker(".git"));
    assert!(is_vcs_marker(".hg"));
    assert!(is_vcs_marker(".svn"));
    assert!(!is_vcs_marker(".hgx"));
    assert!(!is_vcs_marker("git"));
}

#[test]
fn marker_names_in_probe_order() {
    let names = vcs_marker_names();
    assert_eq!(names, vec![".git".to_string(), ".hg".to_string(), ".svn".to_string()]);
}

#[test]
fn join_path_resolves_relative_and_absolute() {
    assert_eq!(join_path(".", ".git"), "./.git");
    assert_eq!(join_path("sub/dir", "x.log"), "sub/dir/x.log");
    assert_eq!(join_path("sub/", "x"), "sub/x");
    assert_eq!(join_path("", "x"), "x");
    assert_eq!(join_path("base", "/abs"), "/abs");
}

#[test]
fn mk_simple_rule_fills_defaults() {
    let r = mk_simple_rule(Action::Ignore, Pathtype::Dir, "./.git");
    assert_eq!(r.action, Action::Ignore);
    assert_eq!(r.ts, Timestamp::Remote);
    assert_eq!(r.thr, ThreadType::Norm);
    assert_eq!(r.prio, 3);
    assert_eq!(r.path_type, Pathtype::Dir);
    assert!(!r.case_sens);
    assert_eq!(r.path, ".git");
}

#[test]
fn scan_for_git_emits_one_candidate_when_present() {
    let rules = scan_for_git(".", true);
    assert_eq!(rules.len(), 1);
    assert_eq!(rules[0].action, Action::Ignore);
    assert_eq!(rules[0].path_type, Pathtype::Dir);
    assert_eq!(rules[0].path, ".git");
}

#[test]
fn scan_for_git_emits_nothing_when_absent() {
    assert_eq!(scan_for_git(".", false).len(), 0);
}

#[test]
fn marker_candidates_translate_each_present_marker() {
    let present = vec![".git".to_string(), ".svn".to_string()];
    let rules = marker_candidates(".", &present);
    assert_eq!(rules.len(), 2);
    assert_eq!(rules[0].path, ".git");
    assert_eq!(rules[1].path, ".svn");
    assert!(rules.iter().all(|r| r.action == Action::Ignore && r.path_type == Pathtype::Dir));
}

#[test]
fn ignore_files_are_recognized_by_name() {
    assert!(is_ignore_file(".gitignore"));
    assert!(is_ignore_file("sub/dir/.hgignore"));
    assert!(!is_ignore_file("sub/notes.txt"));
    assert!(!is_ignore_file("foo.gitignore"));
}

#[test]
fn extension_detection_skips_dotfiles() {
    assert!(!has_extension(".gitignore"));
    assert!(has_extension("a.b"));
    assert!(has_extension("foo."));
    assert!(!has_extension("cache"));
    assert!(has_extension("dir/file.txt"));
    assert!(!has_extension("dir.d/file"));
}

#[test]
fn scan_ignore_rejects_other_files() {
    let lines = vec!["x".to_string()];
    assert!(scan_ignore("sub/readme.md", &lines).is_none());
}

#[test]
fn scan_ignore_translates_entries() {
    let lines = vec![
        "build/".to_string(),
        "*.log".to_string(),
        "".to_string(),
        "docs/notes.txt".to_string(),
        "cache".to_string(),
    ];
    let rules = scan_ignore("sub/.gitignore", &lines).unwrap();
    assert_eq!(rules.len(), 4);
    assert_eq!(rules[0].path, "sub/build/");
    assert_eq!(rules[0].path_type, Pathtype::All);
    assert_eq!(rules[1].path, "sub/*.log");
    assert_eq!(rules[1].path_type, Pathtype::File);
    assert_eq!(rules[2].path, "sub/docs/notes.txt");
    assert_eq!(rules[2].path_type, Pathtype::File);
    assert_eq!(rules[3].path, "sub/cache");
    assert_eq!(rules[3].path_type, Pathtype::All);
    assert!(rules.iter().all(|r| r.action == Action::Ignore));
}

#[test]
fn scan_ignore_in_root_keeps_entries_bare() {
    let lines = vec!["*.tmp".to_string(), "/rooted.txt".to_string()];
    let rules = scan_ignore(".gitignore", &lines).unwrap();
    assert_eq!(rules.len(), 2);
    assert_eq!(rules[0].path, "//*.tmp");
    assert_eq!(rules[1].path, "rooted.txt");
}
