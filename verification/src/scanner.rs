//! Discovery of candidate rules: version-control markers found under the
//! working directory, and entries of ignore files found in the tree.
//!
//! The filesystem itself is probed by the caller, which hands in plain
//! values: which marker names exist, which files are ignore files, and the
//! lines those files hold. Everything that turns those observations into
//! candidate rules is verified here.

use vstd::prelude::*;

use crate::globber::{format_path, spec_from_path};
use crate::rule::{Action, Pathtype, Rule, RuleV, ThreadType, Timestamp};
use crate::strutil::{last_idx_of, rfind_char, str_eq};

verus! {

/// Whether `n` is one of the well-known version-control marker directory
/// names.
pub open spec fn is_marker_name(n: Seq<char>) -> bool {
    n == ".git"@ || n == ".hg"@ || n == ".svn"@
}

/// Decides `is_marker_name(name@)`.
pub fn is_vcs_marker(name: &str) -> (r: bool)
    ensures
        r == is_marker_name(name@),
{
    str_eq(name, ".git") || str_eq(name, ".hg") || str_eq(name, ".svn")
}

/// The well-known version-control marker directory names, in the order they
/// are probed.
pub fn vcs_marker_names() -> (v: Vec<String>)
    ensures
        v.deep_view() == seq![".git"@, ".hg"@, ".svn"@],
{
    let mut v: Vec<String> = Vec::new();
    v.push(String::from_str(".git"));
    v.push(String::from_str(".hg"));
    v.push(String::from_str(".svn"));
    proof {
        assert(v.deep_view() =~= seq![".git"@, ".hg"@, ".svn"@]);
    }
    v
}

/// The final path component of `p`: everything after its last `/`, or all of
/// `p` when it has none.
pub open spec fn spec_base_name(p: Seq<char>) -> Seq<char> {
    if last_idx_of(p, '/') == -1 {
        p
    } else {
        p.skip(last_idx_of(p, '/') + 1)
    }
}

/// The directory part of `p`: everything before its last `/`, or empty when
/// `p` is a bare name.
pub open spec fn spec_parent_dir(p: Seq<char>) -> Seq<char> {
    if last_idx_of(p, '/') == -1 {
        Seq::<char>::empty()
    } else {
        p.take(last_idx_of(p, '/'))
    }
}

/// The final path component of `p`.
pub fn base_name<'a>(p: &'a str) -> (r: &'a str)
    ensures
        r@ == spec_base_name(p@),
{
    proof {
        crate::strutil::lemma_last_idx_of(p@, '/');
    }
    let len = p.unicode_len();
    match rfind_char(p, '/') {
        Some(i) => p.substring_char(i + 1, len),
        None => p,
    }
}

/// The directory part of `p`.
pub fn parent_dir<'a>(p: &'a str) -> (r: &'a str)
    ensures
        r@ == spec_parent_dir(p@),
{
    proof {
        crate::strutil::lemma_last_idx_of(p@, '/');
    }
    proof {
        reveal_strlit("");
        assert(""@ =~= Seq::<char>::empty());
    }
    match rfind_char(p, '/') {
        Some(i) => p.substring_char(0, i),
        None => "",
    }
}

/// Whether `p` names an ignore file whose entries can be translated into
/// rules: its final component is one of the two conventional names.
pub open spec fn is_ignore_file_name(p: Seq<char>) -> bool {
    spec_base_name(p) == ".gitignore"@ || spec_base_name(p) == ".hgignore"@
}

/// Decides `is_ignore_file_name(path@)`.
pub fn is_ignore_file(path: &str) -> (r: bool)
    ensures
        r == is_ignore_file_name(path@),
{
    let base = base_name(path);
    str_eq(base, ".gitignore") || str_eq(base, ".hgignore")
}

/// `name` resolved against the directory `base`: an absolute name stands
/// alone, otherwise the two are joined with a separator.
pub open spec fn spec_join(base: Seq<char>, name: Seq<char>) -> Seq<char> {
    if name.len() > 0 && name[0] == '/' {
        name
    } else if base.len() == 0 {
        name
    } else if base.last() == '/' {
        base + name
    } else {
        base + "/"@ + name
    }
}

/// Resolves `name` against the directory `base`.
pub fn join_path(base: &str, name: &str) -> (r: String)
    ensures
        r@ == spec_join(base@, name@),
{
    let nlen = name.unicode_len();
    let blen = base.unicode_len();
    if nlen > 0 && name.get_char(0) == '/' {
        name.to_owned()
    } else if blen == 0 {
        name.to_owned()
    } else if base.get_char(blen - 1) == '/' {
        let mut s = base.to_owned();
        s.append(name);
        s
    } else {
        proof {
            reveal_strlit("/");
        }
        let mut s = base.to_owned();
        s.append("/");
        s.append(name);
        s
    }
}

/// Whether the final component of entry `e` carries an extension: a `.` after
/// its first character. A name that starts with its only `.` (such as a
/// dotfile) has none.
pub open spec fn spec_has_extension(e: Seq<char>) -> bool {
    exists|i: int| 1 <= i < spec_base_name(e).len() && spec_base_name(e)[i] == '.'
}

/// Decides `spec_has_extension(e@)`.
pub fn has_extension(e: &str) -> (r: bool)
    ensures
        r == spec_has_extension(e@),
{
    let base = base_name(e);
    let len = base.unicode_len();
    let mut i: usize = 1;
    while i < len
        invariant
            base@ == spec_base_name(e@),
            len == base@.len(),
            1 <= i,
            forall|k: int| 1 <= k < i ==> base@[k] != '.',
        decreases len - i,
    {
        if base.get_char(i) == '.' {
            return true;
        }
        i += 1;
    }
    proof {
        if spec_has_extension(e@) {
            let w = choose|k: int|
                1 <= k < spec_base_name(e@).len() && spec_base_name(e@)[k] == '.';
            assert(base@[w] != '.');
        }
    }
    false
}

/// The scope of a rule derived from an ignore-file entry: a trailing `/` or a
/// name without an extension leaves the scope unspecified, anything else
/// applies to files only.
pub open spec fn spec_entry_scope(e: Seq<char>) -> Pathtype {
    if e.len() > 0 && e.last() == '/' {
        Pathtype::All
    } else if !spec_has_extension(e) {
        Pathtype::All
    } else {
        Pathtype::File
    }
}

/// Decides the scope of an ignore-file entry.
pub fn entry_scope(e: &str) -> (r: Pathtype)
    ensures
        r == spec_entry_scope(e@),
{
    let len = e.unicode_len();
    if len > 0 && e.get_char(len - 1) == '/' {
        Pathtype::All
    } else if !has_extension(e) {
        Pathtype::All
    } else {
        Pathtype::File
    }
}

/// A candidate rule: the given action and scope, every other attribute at its
/// default, and the pattern read back from the filesystem path `fp`.
pub open spec fn spec_simple_rule(action: Action, path_type: Pathtype, fp: Seq<char>) -> RuleV {
    RuleV {
        action,
        ts: Timestamp::Remote,
        thr: ThreadType::Norm,
        prio: 3u32,
        path_type,
        case_sens: false,
        path: spec_from_path(fp),
    }
}

/// Builds a rule from an action, a scope and a filesystem path, filling every
/// other attribute with its default.
pub fn mk_simple_rule(action: Action, path_type: Pathtype, fp: &str) -> (r: Rule)
    ensures
        r@ == spec_simple_rule(action, path_type, fp@),
{
    Rule {
        action,
        ts: Timestamp::Remote,
        thr: ThreadType::Norm,
        prio: 3,
        path_type,
        case_sens: false,
        path: format_path(fp),
    }
}

/// The candidate rules for the marker directories reported present directly
/// under `wd`: one ignore-directory rule per marker, in the order given.
pub open spec fn spec_marker_candidates(wd: Seq<char>, names: Seq<Seq<char>>) -> Seq<RuleV> {
    names.map_values(
        |n: Seq<char>| spec_simple_rule(Action::Ignore, Pathtype::Dir, spec_join(wd, n)),
    )
}

/// Builds one ignore-directory candidate per marker name found under `wd`.
/// The caller reports which marker names exist; this function only translates
/// them.
pub fn marker_candidates(wd: &str, present: &Vec<String>) -> (v: Vec<Rule>)
    ensures
        v.deep_view() == spec_marker_candidates(wd@, present.deep_view()),
{
    let mut v: Vec<Rule> = Vec::new();
    let mut i: usize = 0;
    while i < present.len()
        invariant
            0 <= i <= present@.len(),
            v.deep_view() =~= spec_marker_candidates(wd@, present.deep_view().take(i as int)),
        decreases present@.len() - i,
    {
        let ghost old_deep = v.deep_view();
        let ghost pd = present.deep_view();
        let p = join_path(wd, present[i].as_str());
        let r = mk_simple_rule(Action::Ignore, Pathtype::Dir, p.as_str());
        v.push(r);
        proof {
            assert(pd[i as int] == present@[i as int]@);
            assert(r@ == spec_simple_rule(Action::Ignore, Pathtype::Dir, spec_join(
                wd@,
                pd[i as int],
            )));
            assert(v.deep_view() =~= old_deep.push(r@));
            assert(spec_marker_candidates(wd@, pd.take(i + 1)) =~= spec_marker_candidates(
                wd@,
                pd.take(i as int),
            ).push(spec_simple_rule(Action::Ignore, Pathtype::Dir, spec_join(wd@, pd[i as int]))));
            assert(v.deep_view() =~= spec_marker_candidates(wd@, pd.take(i + 1)));
        }
        i += 1;
    }
    proof {
        assert(present.deep_view().take(present@.len() as int) =~= present.deep_view());
    }
    v
}

/// Checks whether the working directory holds a `.git` marker and, when the
/// caller reports it present, emits the candidate rule that ignores it.
pub fn scan_for_git(wd: &str, git_present: bool) -> (v: Vec<Rule>)
    ensures
        git_present ==> v.deep_view() == seq![
            spec_simple_rule(Action::Ignore, Pathtype::Dir, spec_join(wd@, ".git"@)),
        ],
        !git_present ==> v.deep_view() == Seq::<RuleV>::empty(),
{
    let mut v: Vec<Rule> = Vec::new();
    if git_present {
        let p = join_path(wd, ".git");
        v.push(mk_simple_rule(Action::Ignore, Pathtype::Dir, p.as_str()));
        proof {
            assert(v.deep_view() =~= seq![
                spec_simple_rule(Action::Ignore, Pathtype::Dir, spec_join(wd@, ".git"@)),
            ]);
        }
    } else {
        proof {
            assert(v.deep_view() =~= Seq::<RuleV>::empty());
        }
    }
    v
}

/// The candidate rules read from the entries of an ignore file living in
/// `base`: one ignore rule per non-empty entry, scoped by the entry's shape,
/// with the entry resolved against `base` and translated into a pattern.
pub open spec fn spec_ignore_candidates(base: Seq<char>, lines: Seq<Seq<char>>) -> Seq<RuleV>
    decreases lines.len(),
{
    if lines.len() == 0 {
        Seq::<RuleV>::empty()
    } else {
        let head: Seq<RuleV> = if lines[0].len() == 0 {
            Seq::<RuleV>::empty()
        } else {
            seq![
                spec_simple_rule(
                    Action::Ignore,
                    spec_entry_scope(lines[0]),
                    spec_join(base, lines[0]),
                ),
            ]
        };
        head + spec_ignore_candidates(base, lines.drop_first())
    }
}

/// Translates the lines of an ignore file living in `base` into candidate
/// rules, skipping empty entries.
pub fn ignore_candidates(base: &str, lines: &Vec<String>) -> (v: Vec<Rule>)
    ensures
        v.deep_view() == spec_ignore_candidates(base@, lines.deep_view()),
{
    let ghost goal = spec_ignore_candidates(base@, lines.deep_view());
    let mut v: Vec<Rule> = Vec::new();
    let mut i: usize = 0;
    proof {
        assert(lines.deep_view().skip(0) =~= lines.deep_view());
        assert(goal =~= v.deep_view() + spec_ignore_candidates(base@, lines.deep_view().skip(0)));
    }
    while i < lines.len()
        invariant
            0 <= i <= lines@.len(),
            goal == spec_ignore_candidates(base@, lines.deep_view()),
            goal == v.deep_view() + spec_ignore_candidates(
                base@,
                lines.deep_view().skip(i as int),
            ),
        decreases lines@.len() - i,
    {
        let ghost suf = lines.deep_view().skip(i as int);
        proof {
            assert(suf[0] == lines.deep_view()[i as int]);
            assert(lines.deep_view()[i as int] == lines@[i as int]@);
            assert(suf.drop_first() =~= lines.deep_view().skip(i + 1));
        }
        let entry = &lines[i];
        if entry.as_str().unicode_len() > 0 {
            let scope = entry_scope(entry.as_str());
            let fp = join_path(base, entry.as_str());
            let r = mk_simple_rule(Action::Ignore, scope, fp.as_str());
            v.push(r);
        }
        proof {
            assert(goal =~= v.deep_view() + spec_ignore_candidates(
                base@,
                lines.deep_view().skip(i + 1),
            ));
        }
        i += 1;
    }
    proof {
        assert(lines.deep_view().skip(lines@.len() as int) =~= Seq::<Seq<char>>::empty());
    }
    v
}

/// Translates one discovered file into candidate rules: an ignore file yields
/// one candidate per non-empty entry, resolved against the file's directory;
/// any other file yields nothing. The caller supplies the file's lines.
pub fn scan_ignore(ign_file: &str, lines: &Vec<String>) -> (r: Option<Vec<Rule>>)
    ensures
        is_ignore_file_name(ign_file@) ==> (r matches Some(v) && v.deep_view()
            == spec_ignore_candidates(spec_parent_dir(ign_file@), lines.deep_view())),
        !is_ignore_file_name(ign_file@) ==> r is None,
{
    if !is_ignore_file(ign_file) {
        return None;
    }
    let base = parent_dir(ign_file);
    Some(ignore_candidates(base, lines))
}

} // verus!
