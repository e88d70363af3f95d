use trfilter::errors::GlobError;
use trfilter::globber::{format_path, to_glob, translate_glob};

#[test]
fn to_glob_rewrites_double_slash() {
    assert_eq!(to_glob("//logs"), Ok("**/logs".to_string()));
}

#[test]
fn to_glob_reanchors_single_slash() {
    assert_eq!(to_glob("/existingfile"), Ok("./existingfile".to_string()));
}

#[test]
fn to_glob_anchors_plain_patterns() {
    assert_eq!(to_glob("docs/*.md"), Ok("./docs/*.md".to_string()));
}

#[test]
fn to_glob_keeps_anchored_patterns() {
    assert_eq!(to_glob("./x/y"), Ok("./x/y".to_string()));
}

#[test]
fn to_glob_reports_uncompilable_patterns() {
    assert_eq!(to_glob("broken["), Err(GlobError));
}

#[test]
fn format_path_strips_leading_slash() {
    assert_eq!(format_path("/x"), "x");
}

#[test]
fn format_path_rewrites_double_star() {
    assert_eq!(format_path("**/x"), "//x");
}

#[test]
fn format_path_strips_current_dir() {
    assert_eq!(format_path("./x"), "x");
}

#[test]
fn format_path_lifts_star_segment() {
    assert_eq!(format_path("*.log"), "//*.log");
}

#[test]
fn format_path_keeps_plain_paths() {
    assert_eq!(format_path("a/b"), "a/b");
}

#[test]
fn translation_is_stable() {
    for p in ["x", "/x", "./x", "//x", "*.log", "a/b/c", "**/x"] {
        let once = translate_glob(p);
        let again = translate_glob(&format_path(&once));
        assert_eq!(again, once, "pattern was: {}", p);
    }
}
