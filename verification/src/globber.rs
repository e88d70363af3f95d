//! Translation between rule path patterns and filesystem glob expressions.
//!
//! A rule pattern is anchored before matching: `//` means "in any
//! subdirectory", a single leading `/` or no anchor at all means "under the
//! tracked root", and `./` is already anchored. The inverse direction turns a
//! discovered filesystem path back into a rule pattern.

use vstd::prelude::*;

use crate::errors::GlobError;
use crate::strutil::{is_prefix, starts_with};

verus! {

/// Whether the glob engine both accepts `pattern` as a well-formed glob and
/// compiles it into a matcher (compilation enforces the engine's own size
/// limit on the derived regex). The result depends on the pattern alone.
pub uninterp spec fn glob_compiles(pattern: Seq<char>) -> bool;

/// Whether the glob compiled from `pattern` matches `path`. The result is a
/// function of the two strings alone.
pub uninterp spec fn glob_matches(pattern: Seq<char>, path: Seq<char>) -> bool;

/// Relies on globset's `Glob::new` (a deterministic parser of the pattern
/// string) and `GlobSetBuilder::build` (which compiles the parsed glob and
/// reports a pattern over the engine's size limit as an error, never a
/// panic): together they decide whether the pattern can be matched with.
#[verifier::external_body]
pub(crate) fn glob_ok(pattern: &str) -> (r: bool)
    ensures
        r == glob_compiles(pattern@),
{
    match globset::Glob::new(pattern) {
        Ok(g) => globset::GlobSetBuilder::new().add(g).build().is_ok(),
        Err(_) => false,
    }
}

/// Relies on globset's `Glob::new`, `GlobSetBuilder::build` and
/// `GlobSet::is_match`: parsing and compiling succeed exactly when
/// `glob_ok` says so, a one-glob set matches a path exactly when its glob
/// does, and matching is a function of the pattern and the path.
#[verifier::external_body]
pub(crate) fn glob_match(pattern: &str, path: &str) -> (r: Option<bool>)
    ensures
        r is Some <==> glob_compiles(pattern@),
        r matches Some(b) ==> b == glob_matches(pattern@, path@),
{
    match globset::Glob::new(pattern) {
        Ok(g) => match globset::GlobSetBuilder::new().add(g).build() {
            Ok(set) => Some(set.is_match(path)),
            Err(_) => None,
        },
        Err(_) => None,
    }
}

/// The glob expression of a rule pattern: `//` becomes `**/`, a single `/` is
/// re-anchored to `./`, an unanchored pattern gains `./`, and an already
/// anchored pattern stays as it is.
pub open spec fn spec_to_glob(p: Seq<char>) -> Seq<char> {
    if is_prefix("//"@, p) {
        "**/"@ + p.skip(2)
    } else if is_prefix("/"@, p) {
        "./"@ + p.skip(1)
    } else if is_prefix("./"@, p) {
        p
    } else {
        "./"@ + p
    }
}

/// The rule pattern of a filesystem path or glob: a leading `/` is stripped,
/// a leading `**/` becomes `//`, a leading `./` is stripped, and a bare
/// leading `*` segment is lifted to the any-subdirectory form.
pub open spec fn spec_from_path(p: Seq<char>) -> Seq<char> {
    if is_prefix("/"@, p) {
        p.skip(1)
    } else if is_prefix("**/"@, p) {
        "//"@ + p.skip(3)
    } else if is_prefix("./"@, p) {
        p.skip(2)
    } else if is_prefix("*"@, p) {
        "//"@ + p
    } else {
        p
    }
}

/// Translates a rule pattern into its root-anchored glob expression. The
/// expression always exists as a string, whether or not the glob engine
/// accepts it; it is also the identity by which rules are deduplicated.
pub fn translate_glob(pattern: &str) -> (r: String)
    ensures
        r@ == spec_to_glob(pattern@),
{
    proof {
        reveal_strlit("//");
        reveal_strlit("/");
        reveal_strlit("./");
        assert("//"@.len() == 2 && "/"@.len() == 1 && "./"@.len() == 2);
    }
    let len = pattern.unicode_len();
    if starts_with(pattern, "//") {
        let mut s = String::from_str("**/");
        s.append(pattern.substring_char(2, len));
        proof {
            assert(s@ =~= "**/"@ + pattern@.skip(2));
        }
        s
    } else if starts_with(pattern, "/") {
        let mut s = String::from_str("./");
        s.append(pattern.substring_char(1, len));
        proof {
            assert(s@ =~= "./"@ + pattern@.skip(1));
        }
        s
    } else if starts_with(pattern, "./") {
        pattern.to_owned()
    } else {
        let mut s = String::from_str("./");
        s.append(pattern);
        proof {
            assert(s@ =~= "./"@ + pattern@);
        }
        s
    }
}

/// Compiles a rule pattern for matching: the pattern is anchored and handed
/// to the glob engine. Fails exactly when the engine refuses the anchored
/// expression; the caller treats that as a per-rule warning.
pub fn to_glob(pattern: &str) -> (r: Result<String, GlobError>)
    ensures
        r matches Ok(g) ==> g@ == spec_to_glob(pattern@) && glob_compiles(g@),
        r is Err <==> !glob_compiles(spec_to_glob(pattern@)),
{
    let translated = translate_glob(pattern);
    if glob_ok(translated.as_str()) {
        Ok(translated)
    } else {
        Err(GlobError)
    }
}

/// Turns a discovered filesystem path into a rule pattern.
pub fn format_path(fp: &str) -> (r: String)
    ensures
        r@ == spec_from_path(fp@),
{
    proof {
        reveal_strlit("/");
        reveal_strlit("**/");
        reveal_strlit("./");
        reveal_strlit("*");
        assert("/"@.len() == 1 && "**/"@.len() == 3 && "./"@.len() == 2 && "*"@.len() == 1);
    }
    let len = fp.unicode_len();
    if starts_with(fp, "/") {
        fp.substring_char(1, len).to_owned()
    } else if starts_with(fp, "**/") {
        let mut s = String::from_str("//");
        s.append(fp.substring_char(3, len));
        proof {
            assert(s@ =~= "//"@ + fp@.skip(3));
        }
        s
    } else if starts_with(fp, "./") {
        fp.substring_char(2, len).to_owned()
    } else if starts_with(fp, "*") {
        let mut s = String::from_str("//");
        s.append(fp);
        proof {
            assert(s@ =~= "//"@ + fp@);
        }
        s
    } else {
        fp.to_owned()
    }
}

/// Anchoring a pattern that already starts with `./` changes nothing.
pub proof fn lemma_to_glob_anchored_noop(p: Seq<char>)
    requires
        is_prefix("./"@, p),
    ensures
        spec_to_glob(p) == p,
{
    reveal_strlit("./");
    reveal_strlit("/");
    reveal_strlit("//");
    assert("./"@.len() == 2 && "./"@[0] == '.' && "./"@[1] == '/');
    assert("/"@.len() == 1 && "/"@[0] == '/');
    assert("//"@.len() == 2 && "//"@[0] == '/');
    assert(p.subrange(0, 2)[0] == p[0]);
    assert(p[0] == '.');
    if is_prefix("//"@, p) {
        assert(p.subrange(0, 2)[0] == p[0]);
        assert(false);
    }
    if is_prefix("/"@, p) {
        assert(p.subrange(0, 1)[0] == p[0]);
        assert(false);
    }
}

/// Reading an anchored glob back as a pattern and anchoring it again gives
/// the same glob: anchoring normalizes a pattern once and then stays put.
/// This asks the pattern not to carry a second anchor behind its first one
/// (as `/./x` does), for which the inner anchor would be normalized away.
#[verifier::rlimit(50)]
pub proof fn lemma_glob_translation_stable(p: Seq<char>)
    requires
        is_prefix("/"@, p) && !is_prefix("//"@, p) ==> !is_prefix("./"@, p.skip(1)),
        is_prefix("./"@, p) ==> !is_prefix("/"@, p.skip(2)) && !is_prefix("./"@, p.skip(2)),
    ensures
        spec_to_glob(spec_from_path(spec_to_glob(p))) == spec_to_glob(p),
{
    reveal_strlit("/");
    reveal_strlit("//");
    reveal_strlit("./");
    reveal_strlit("*");
    reveal_strlit("**/");
    assert("/"@.len() == 1 && "/"@[0] == '/');
    assert("//"@.len() == 2 && "//"@[0] == '/' && "//"@[1] == '/');
    assert("./"@.len() == 2 && "./"@[0] == '.' && "./"@[1] == '/');
    assert("*"@.len() == 1 && "*"@[0] == '*');
    assert("**/"@.len() == 3 && "**/"@[0] == '*' && "**/"@[1] == '*' && "**/"@[2] == '/');
    let g = spec_to_glob(p);
    if is_prefix("//"@, p) {
        assert(p.subrange(0, 2)[0] == p[0] && p.subrange(0, 2)[1] == p[1]);
        assert(g == "**/"@ + p.skip(2));
        assert(g.len() >= 3 && g[0] == '*' && g[1] == '*' && g[2] == '/');
        assert(!is_prefix("/"@, g)) by {
            if is_prefix("/"@, g) {
                assert(g.subrange(0, 1)[0] == g[0]);
            }
        }
        assert(is_prefix("**/"@, g)) by {
            assert(g.subrange(0, 3) =~= "**/"@);
        }
        let q = "//"@ + g.skip(3);
        assert(spec_from_path(g) == q);
        assert(g.skip(3) =~= p.skip(2));
        assert(is_prefix("//"@, q)) by {
            assert(q.subrange(0, 2) =~= "//"@);
        }
        assert(q.skip(2) =~= p.skip(2));
        assert(spec_to_glob(q) =~= g);
    } else if is_prefix("/"@, p) {
        assert(p.subrange(0, 1)[0] == p[0]);
        assert(p[0] == '/');
        assert(g == "./"@ + p.skip(1));
        assert(g.len() >= 2 && g[0] == '.' && g[1] == '/');
        assert(!is_prefix("/"@, g)) by {
            if is_prefix("/"@, g) {
                assert(g.subrange(0, 1)[0] == g[0]);
            }
        }
        assert(!is_prefix("**/"@, g)) by {
            if is_prefix("**/"@, g) {
                assert(g.subrange(0, 3)[0] == g[0]);
            }
        }
        assert(is_prefix("./"@, g)) by {
            assert(g.subrange(0, 2) =~= "./"@);
        }
        let q = g.skip(2);
        assert(spec_from_path(g) == q);
        assert(q =~= p.skip(1));
        assert(!is_prefix("//"@, q)) by {
            if is_prefix("//"@, q) {
                assert(q.subrange(0, 2)[0] == q[0]);
                assert(q[0] == p[1]);
                assert(p.subrange(0, 2) =~= "//"@);
            }
        }
        assert(!is_prefix("/"@, q)) by {
            if is_prefix("/"@, q) {
                assert(q.subrange(0, 1)[0] == q[0]);
                assert(q[0] == p[1]);
                assert(p.subrange(0, 2) =~= "//"@);
            }
        }
        assert(!is_prefix("./"@, q));
        assert(spec_to_glob(q) == "./"@ + q.skip(0));
        assert(q.skip(0) =~= q);
        assert(spec_to_glob(q) =~= g);
    } else if is_prefix("./"@, p) {
        assert(g == p);
        assert(p.subrange(0, 2)[0] == p[0] && p.subrange(0, 2)[1] == p[1]);
        assert(g.len() >= 2 && g[0] == '.' && g[1] == '/');
        assert(!is_prefix("/"@, g)) by {
            if is_prefix("/"@, g) {
                assert(g.subrange(0, 1)[0] == g[0]);
            }
        }
        assert(!is_prefix("**/"@, g)) by {
            if is_prefix("**/"@, g) {
                assert(g.subrange(0, 3)[0] == g[0]);
            }
        }
        let q = g.skip(2);
        assert(spec_from_path(g) == q);
        assert(q == p.skip(2));
        assert(!is_prefix("//"@, q)) by {
            if is_prefix("//"@, q) {
                assert(q.subrange(0, 1) =~= "/"@);
            }
        }
        assert(!is_prefix("/"@, q));
        assert(!is_prefix("./"@, q));
        assert(spec_to_glob(q) == "./"@ + q.skip(0));
        assert(q.skip(0) =~= q);
        assert(spec_to_glob(q) =~= g);
    } else {
        assert(g == "./"@ + p);
        assert(g.len() >= 2 && g[0] == '.' && g[1] == '/');
        assert(!is_prefix("/"@, g)) by {
            if is_prefix("/"@, g) {
                assert(g.subrange(0, 1)[0] == g[0]);
            }
        }
        assert(!is_prefix("**/"@, g)) by {
            if is_prefix("**/"@, g) {
                assert(g.subrange(0, 3)[0] == g[0]);
            }
        }
        assert(is_prefix("./"@, g)) by {
            assert(g.subrange(0, 2) =~= "./"@);
        }
        let q = g.skip(2);
        assert(spec_from_path(g) == q);
        assert(q =~= p);
        assert(spec_to_glob(q) == g);
    }
}

} // verus!
