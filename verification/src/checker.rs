//! Evaluation of a rule set against the paths of the tracked tree.
//!
//! The caller walks the tree and hands in the visited paths as plain strings;
//! this module compiles one glob per rule and reports, by index, every rule
//! whose glob matches at least one visited path. A rule whose pattern the
//! glob engine refuses is skipped and can never be reported matched.

use vstd::prelude::*;

use crate::globber::{glob_compiles, glob_match, glob_matches, glob_ok, spec_to_glob, translate_glob};
use crate::rule::{Rule, RuleV};

verus! {

/// Whether a rule has at least one match among the visited paths: its
/// pattern's glob compiles and matches some path.
pub open spec fn rule_matched(r: RuleV, paths: Seq<Seq<char>>) -> bool {
    glob_compiles(spec_to_glob(r.path)) && exists|j: int|
        0 <= j < paths.len() && glob_matches(spec_to_glob(r.path), paths[j])
}

/// Tests one compiled glob against every path until a match is found.
fn glob_matches_any(pattern: &str, paths: &Vec<String>) -> (r: bool)
    requires
        glob_compiles(pattern@),
    ensures
        r == exists|j: int|
            0 <= j < paths.deep_view().len() && glob_matches(pattern@, paths.deep_view()[j]),
{
    let mut j: usize = 0;
    while j < paths.len()
        invariant
            glob_compiles(pattern@),
            0 <= j <= paths@.len(),
            forall|k: int| 0 <= k < j ==> !glob_matches(pattern@, #[trigger] paths.deep_view()[k]),
        decreases paths@.len() - j,
    {
        assert(paths.deep_view()[j as int] == paths@[j as int]@);
        let m = glob_match(pattern, paths[j].as_str());
        if m.unwrap() {
            assert(glob_matches(pattern@, paths.deep_view()[j as int]));
            return true;
        }
        j += 1;
    }
    proof {
        if exists|k: int|
            0 <= k < paths.deep_view().len() && glob_matches(pattern@, paths.deep_view()[k]) {
            let w = choose|k: int|
                0 <= k < paths.deep_view().len() && glob_matches(pattern@, paths.deep_view()[k]);
            assert(!glob_matches(pattern@, paths.deep_view()[w]));
        }
    }
    false
}

/// Checks every rule against the visited paths and reports the indices of the
/// rules with at least one match, in increasing order. A rule whose pattern
/// fails to compile is skipped, never matched.
pub fn check_rules(rules: &Vec<Rule>, paths: &Vec<String>) -> (m: Vec<usize>)
    ensures
        forall|a: int, b: int| 0 <= a < b < m@.len() ==> m@[a] < m@[b],
        forall|k: int| 0 <= k < m@.len() ==> (m@[k] as int) < rules@.len(),
        forall|i: int|
            0 <= i < rules@.len() ==> (m@.contains(i as usize) <==> rule_matched(
                #[trigger] rules.deep_view()[i],
                paths.deep_view(),
            )),
{
    let mut m: Vec<usize> = Vec::new();
    let mut i: usize = 0;
    while i < rules.len()
        invariant
            0 <= i <= rules@.len(),
            forall|a: int, b: int| 0 <= a < b < m@.len() ==> m@[a] < m@[b],
            forall|k: int| 0 <= k < m@.len() ==> (m@[k] as int) < i,
            forall|j: int|
                0 <= j < i ==> (m@.contains(j as usize) <==> rule_matched(
                    #[trigger] rules.deep_view()[j],
                    paths.deep_view(),
                )),
        decreases rules@.len() - i,
    {
        let ghost old_m = m@;
        assert(rules.deep_view()[i as int] == rules@[i as int]@);
        let g = translate_glob(rules[i].path.as_str());
        if glob_ok(g.as_str()) {
            if glob_matches_any(g.as_str(), paths) {
                m.push(i);
                proof {
                    assert(m@ == old_m.push(i));
                    assert(m@[old_m.len() as int] == i);
                    assert(m@.contains(i as usize));
                    assert forall|j: int|
                        0 <= j < i + 1 implies (m@.contains(j as usize) <==> rule_matched(
                        #[trigger] rules.deep_view()[j],
                        paths.deep_view(),
                    )) by {
                        if j < i {
                            assert forall|w: int|
                                0 <= w < m@.len() && m@[w] == (j as usize) implies old_m.contains(
                                j as usize,
                            ) by {
                                assert(w < old_m.len());
                                assert(old_m[w] == (j as usize));
                            }
                            if old_m.contains(j as usize) {
                                let w = choose|w: int|
                                    0 <= w < old_m.len() && old_m[w] == (j as usize);
                                assert(m@[w] == (j as usize));
                            }
                            if m@.contains(j as usize) {
                                let w = choose|w: int| 0 <= w < m@.len() && m@[w] == (j as usize);
                                assert(old_m[w] == (j as usize));
                            }
                        }
                    }
                }
            } else {
                proof {
                    assert(!rule_matched(rules.deep_view()[i as int], paths.deep_view()));
                    if m@.contains(i as usize) {
                        let w = choose|w: int| 0 <= w < m@.len() && m@[w] == (i as usize);
                        assert((m@[w] as int) < i);
                    }
                }
            }
        } else {
            proof {
                assert(!rule_matched(rules.deep_view()[i as int], paths.deep_view()));
                if m@.contains(i as usize) {
                    let w = choose|w: int| 0 <= w < m@.len() && m@[w] == (i as usize);
                    assert((m@[w] as int) < i);
                }
            }
        }
        i += 1;
    }
    m
}

} // verus!
