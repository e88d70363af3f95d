//! Loading, merging and persisting rule sets.
//!
//! Loading parses every line of the filter file and is all-or-nothing; a
//! missing file stands for an empty rule set. Merging appends scanner
//! candidates to the existing rules, deduplicating by translated-glob
//! identity while keeping the existing order untouched.

use vstd::prelude::*;

use crate::errors::ParseError;
use crate::globber::{spec_to_glob, translate_glob};
use crate::rule::{parse, spec_parse, Rule, RuleV};
use crate::strutil::contains_str;

verus! {

/// The identity by which two rules count as the same rule: their translated
/// glob expression.
pub open spec fn glob_key(r: RuleV) -> Seq<char> {
    spec_to_glob(r.path)
}

/// Index of the first line that does not parse, or `lines.len()` when every
/// line parses.
pub open spec fn first_unparsable(lines: Seq<Seq<char>>) -> int
    decreases lines.len(),
{
    if lines.len() == 0 {
        0
    } else if spec_parse(lines[0]) is None {
        0
    } else {
        1 + first_unparsable(lines.drop_first())
    }
}

/// `first_unparsable` names the first failing line: every line before it
/// parses, and it is in bounds exactly when some line fails.
pub proof fn lemma_first_unparsable(lines: Seq<Seq<char>>)
    ensures
        0 <= first_unparsable(lines) <= lines.len(),
        first_unparsable(lines) < lines.len() ==> spec_parse(lines[first_unparsable(lines)])
            is None,
        forall|k: int| 0 <= k < first_unparsable(lines) ==> spec_parse(lines[k]) is Some,
    decreases lines.len(),
{
    if lines.len() > 0 && spec_parse(lines[0]) is Some {
        lemma_first_unparsable(lines.drop_first());
        assert forall|k: int| 0 <= k < first_unparsable(lines) implies spec_parse(lines[k])
            is Some by {
            if k > 0 {
                assert(lines.drop_first()[k - 1] == lines[k]);
                assert(k - 1 < first_unparsable(lines.drop_first()));
            }
        }
    }
}

/// Parses every line of a filter file into a rule set. Loading is
/// all-or-nothing: it succeeds exactly when every line parses, and otherwise
/// reports the first failing line's error.
pub fn read_rules(lines: &Vec<String>) -> (r: Result<Vec<Rule>, ParseError>)
    ensures
        r is Ok <==> first_unparsable(lines.deep_view()) == lines@.len(),
        r matches Ok(rules) ==> rules@.len() == lines@.len() && (forall|i: int|
            0 <= i < lines@.len() ==> Some(#[trigger] rules.deep_view()[i]) == spec_parse(
                lines.deep_view()[i],
            )),
        r matches Err(e) ==> ({
            let f = first_unparsable(lines.deep_view());
            f < lines@.len() && spec_parse(lines.deep_view()[f]) is None && e
                == crate::rule::spec_parse_error(lines.deep_view()[f])
        }),
{
    let ghost lv = lines.deep_view();
    let mut rules: Vec<Rule> = Vec::new();
    let mut i: usize = 0;
    while i < lines.len()
        invariant
            lv == lines.deep_view(),
            0 <= i <= lines@.len(),
            rules@.len() == i,
            forall|k: int| 0 <= k < i ==> Some(#[trigger] rules.deep_view()[k]) == spec_parse(
                lv[k],
            ),
        decreases lines@.len() - i,
    {
        assert(lv[i as int] == lines@[i as int]@);
        let ghost old_rules = rules.deep_view();
        match parse(lines[i].as_str()) {
            Ok(rule) => {
                rules.push(rule);
                proof {
                    assert(rules.deep_view() =~= old_rules.push(rule@));
                    assert(rules.deep_view()[i as int] == rule@);
                    assert forall|k: int| 0 <= k < i + 1 implies Some(
                        #[trigger] rules.deep_view()[k],
                    ) == spec_parse(lv[k]) by {
                        if k < i {
                            assert(rules.deep_view()[k] == old_rules[k]);
                        }
                    }
                }
            },
            Err(e) => {
                proof {
                    lemma_first_unparsable(lv);
                    let f = first_unparsable(lv);
                    if f < i {
                        assert(Some(rules.deep_view()[f]) == spec_parse(lv[f]));
                    }
                    if f > i {
                        assert(spec_parse(lv[i as int]) is Some);
                    }
                }
                return Err(e);
            },
        }
        i += 1;
    }
    proof {
        lemma_first_unparsable(lv);
        let f = first_unparsable(lv);
        if f < lv.len() {
            assert(Some(rules.deep_view()[f]) == spec_parse(lv[f]));
        }
    }
    Ok(rules)
}

/// Turns the lines of the filter file into a rule set, where `None` stands
/// for a file that does not exist: absence is an empty rule set, not an
/// error, while a present file must parse entirely.
pub fn mk_rules(lines: &Option<Vec<String>>) -> (r: Result<Vec<Rule>, ParseError>)
    ensures
        lines is None ==> (r matches Ok(v) && v@.len() == 0),
        lines matches Some(ls) ==> {
            &&& r is Ok <==> first_unparsable(ls.deep_view()) == ls@.len()
            &&& (r matches Ok(rules) ==> rules@.len() == ls@.len() && (forall|i: int|
                0 <= i < ls@.len() ==> Some(#[trigger] rules.deep_view()[i]) == spec_parse(
                    ls.deep_view()[i],
                )))
            &&& (r matches Err(e) ==> ({
                let f = first_unparsable(ls.deep_view());
                f < ls@.len() && e == crate::rule::spec_parse_error(ls.deep_view()[f])
            }))
        },
{
    match lines {
        None => Ok(Vec::new()),
        Some(ls) => read_rules(ls),
    }
}

/// The translated globs of a rule set, in order.
pub open spec fn glob_keys(rs: Seq<RuleV>) -> Seq<Seq<char>> {
    rs.map_values(|r: RuleV| glob_key(r))
}

/// The candidates accepted against a set of known globs: each candidate is
/// kept exactly when its translated glob is new, and a kept candidate's glob
/// counts as known from then on, so duplicates within the batch are also
/// dropped. Order is preserved.
pub open spec fn spec_suggest(known: Seq<Seq<char>>, cands: Seq<RuleV>) -> Seq<RuleV>
    decreases cands.len(),
{
    if cands.len() == 0 {
        Seq::<RuleV>::empty()
    } else {
        let c = cands[0];
        let rest = cands.drop_first();
        if known.contains(glob_key(c)) {
            spec_suggest(known, rest)
        } else {
            seq![c] + spec_suggest(known.push(glob_key(c)), rest)
        }
    }
}

/// Filters the scanner's candidates against the existing rule set: a
/// candidate is accepted exactly when its translated glob matches no existing
/// rule and no earlier accepted candidate. Accepted candidates come back in
/// discovery order.
pub fn suggest_rules(existing: &Vec<Rule>, candidates: &Vec<Rule>) -> (out: Vec<Rule>)
    ensures
        out.deep_view() == spec_suggest(glob_keys(existing.deep_view()), candidates.deep_view()),
{
    let mut keys: Vec<String> = Vec::new();
    let mut i: usize = 0;
    while i < existing.len()
        invariant
            0 <= i <= existing@.len(),
            keys.deep_view() =~= glob_keys(existing.deep_view().take(i as int)),
        decreases existing@.len() - i,
    {
        let ghost old_keys = keys.deep_view();
        let k = translate_glob(existing[i].path.as_str());
        keys.push(k);
        proof {
            assert(existing.deep_view()[i as int] == existing@[i as int]@);
            assert(keys.deep_view() =~= old_keys.push(spec_to_glob(
                existing.deep_view()[i as int].path,
            )));
            assert(keys.deep_view() =~= glob_keys(existing.deep_view().take(i + 1)));
        }
        i += 1;
    }
    proof {
        assert(existing.deep_view().take(existing@.len() as int) =~= existing.deep_view());
        assert(keys.deep_view() =~= glob_keys(existing.deep_view()));
    }
    let ghost goal = spec_suggest(glob_keys(existing.deep_view()), candidates.deep_view());
    let mut out: Vec<Rule> = Vec::new();
    let mut j: usize = 0;
    proof {
        assert(candidates.deep_view().skip(0) =~= candidates.deep_view());
        assert(goal =~= out.deep_view() + spec_suggest(
            keys.deep_view(),
            candidates.deep_view().skip(0),
        ));
    }
    while j < candidates.len()
        invariant
            0 <= j <= candidates@.len(),
            goal == spec_suggest(glob_keys(existing.deep_view()), candidates.deep_view()),
            goal == out.deep_view() + spec_suggest(
                keys.deep_view(),
                candidates.deep_view().skip(j as int),
            ),
        decreases candidates@.len() - j,
    {
        let ghost suf = candidates.deep_view().skip(j as int);
        let ghost old_keys = keys.deep_view();
        let ghost old_out = out.deep_view();
        proof {
            assert(suf[0] == candidates.deep_view()[j as int]);
            assert(candidates.deep_view()[j as int] == candidates@[j as int]@);
            assert(suf.drop_first() =~= candidates.deep_view().skip(j + 1));
        }
        let k = translate_glob(candidates[j].path.as_str());
        if !contains_str(&keys, k.as_str()) {
            keys.push(k);
            let c = candidates[j].clone();
            out.push(c);
            proof {
                assert(keys.deep_view() =~= old_keys.push(glob_key(suf[0])));
                assert(out.deep_view() =~= old_out.push(suf[0]));
                assert(out.deep_view() =~= old_out + seq![suf[0]]);
                assert(goal =~= out.deep_view() + spec_suggest(
                    keys.deep_view(),
                    candidates.deep_view().skip(j + 1),
                ));
            }
        }
        j += 1;
    }
    proof {
        assert(candidates.deep_view().skip(candidates@.len() as int) =~= Seq::<RuleV>::empty());
    }
    out
}

/// The merged rule set after an upgrade: the existing rules in their original
/// order, followed by the accepted candidates in discovery order.
pub open spec fn spec_update(existing: Seq<RuleV>, cands: Seq<RuleV>) -> Seq<RuleV> {
    existing + spec_suggest(glob_keys(existing), cands)
}

/// Merges the scanner's candidates into the existing rule set: pre-existing
/// order is unchanged and accepted candidates are appended in discovery
/// order. The result replaces the rule set wholesale when persisted.
pub fn update_rules(existing: &Vec<Rule>, candidates: &Vec<Rule>) -> (out: Vec<Rule>)
    ensures
        out.deep_view() == spec_update(existing.deep_view(), candidates.deep_view()),
{
    let accepted = suggest_rules(existing, candidates);
    let mut out: Vec<Rule> = Vec::new();
    let mut i: usize = 0;
    while i < existing.len()
        invariant
            0 <= i <= existing@.len(),
            out.deep_view() =~= existing.deep_view().take(i as int),
        decreases existing@.len() - i,
    {
        let ghost old_out = out.deep_view();
        out.push(existing[i].clone());
        proof {
            assert(existing.deep_view()[i as int] == existing@[i as int]@);
            assert(out.deep_view() =~= old_out.push(existing.deep_view()[i as int]));
            assert(out.deep_view() =~= existing.deep_view().take(i + 1));
        }
        i += 1;
    }
    proof {
        assert(existing.deep_view().take(existing@.len() as int) =~= existing.deep_view());
    }
    let mut j: usize = 0;
    while j < accepted.len()
        invariant
            0 <= j <= accepted@.len(),
            out.deep_view() =~= existing.deep_view() + accepted.deep_view().take(j as int),
        decreases accepted@.len() - j,
    {
        let ghost old_out = out.deep_view();
        out.push(accepted[j].clone());
        proof {
            assert(accepted.deep_view()[j as int] == accepted@[j as int]@);
            assert(out.deep_view() =~= old_out.push(accepted.deep_view()[j as int]));
            assert(out.deep_view() =~= existing.deep_view() + accepted.deep_view().take(j + 1));
        }
        j += 1;
    }
    proof {
        assert(accepted.deep_view().take(accepted@.len() as int) =~= accepted.deep_view());
        assert(out.deep_view() =~= spec_update(existing.deep_view(), candidates.deep_view()));
    }
    out
}

/// Every candidate's glob is known after a pass: it was either known before
/// or belongs to an accepted candidate.
proof fn lemma_suggest_covers(known: Seq<Seq<char>>, cands: Seq<RuleV>, i: int)
    requires
        0 <= i < cands.len(),
    ensures
        known.contains(glob_key(cands[i])) || glob_keys(spec_suggest(known, cands)).contains(
            glob_key(cands[i]),
        ),
    decreases cands.len(),
{
    let c = cands[0];
    let rest = cands.drop_first();
    if i == 0 {
        if !known.contains(glob_key(c)) {
            let s = spec_suggest(known, cands);
            assert(s == seq![c] + spec_suggest(known.push(glob_key(c)), rest));
            assert(glob_keys(s)[0] == glob_key(c));
            assert(glob_keys(s).contains(glob_key(c)));
        }
    } else {
        assert(rest[i - 1] == cands[i]);
        if known.contains(glob_key(c)) {
            lemma_suggest_covers(known, rest, i - 1);
            if glob_keys(spec_suggest(known, rest)).contains(glob_key(cands[i])) {
                assert(spec_suggest(known, cands) == spec_suggest(known, rest));
            }
        } else {
            lemma_suggest_covers(known.push(glob_key(c)), rest, i - 1);
            let s2 = spec_suggest(known.push(glob_key(c)), rest);
            let s = spec_suggest(known, cands);
            assert(s == seq![c] + s2);
            if known.push(glob_key(c)).contains(glob_key(cands[i])) {
                let w = choose|w: int|
                    0 <= w < known.push(glob_key(c)).len() && known.push(glob_key(c))[w]
                        == glob_key(cands[i]);
                if w < known.len() {
                    assert(known[w] == glob_key(cands[i]));
                    assert(known.contains(glob_key(cands[i])));
                } else {
                    assert(glob_key(c) == glob_key(cands[i]));
                    assert(glob_keys(s)[0] == glob_key(c));
                    assert(glob_keys(s).contains(glob_key(cands[i])));
                }
            } else {
                let w = choose|w: int|
                    0 <= w < glob_keys(s2).len() && glob_keys(s2)[w] == glob_key(cands[i]);
                assert(glob_keys(s)[w + 1] == glob_keys(s2)[w]);
                assert(glob_keys(s).contains(glob_key(cands[i])));
            }
        }
    }
}

/// A pass over candidates whose globs are all already known accepts nothing.
proof fn lemma_suggest_empty(known: Seq<Seq<char>>, cands: Seq<RuleV>)
    requires
        forall|i: int| 0 <= i < cands.len() ==> known.contains(glob_key(#[trigger] cands[i])),
    ensures
        spec_suggest(known, cands) == Seq::<RuleV>::empty(),
    decreases cands.len(),
{
    if cands.len() > 0 {
        assert(known.contains(glob_key(cands[0])));
        assert(forall|i: int|
            0 <= i < cands.drop_first().len() ==> #[trigger] cands.drop_first()[i] == cands[i
                + 1]);
        lemma_suggest_empty(known, cands.drop_first());
    }
}

/// Upgrading is idempotent: a second pass with the same candidates over the
/// merged rule set accepts nothing new, because every candidate's glob is
/// already among the merged rules' globs.
pub proof fn lemma_update_idempotent(existing: Seq<RuleV>, cands: Seq<RuleV>)
    ensures
        spec_suggest(glob_keys(spec_update(existing, cands)), cands) == Seq::<RuleV>::empty(),
{
    let known = glob_keys(existing);
    let accepted = spec_suggest(known, cands);
    let merged_keys = glob_keys(existing + accepted);
    assert(merged_keys =~= known + glob_keys(accepted));
    assert forall|i: int| 0 <= i < cands.len() implies merged_keys.contains(
        glob_key(#[trigger] cands[i]),
    ) by {
        lemma_suggest_covers(known, cands, i);
        if known.contains(glob_key(cands[i])) {
            let w = choose|w: int| 0 <= w < known.len() && known[w] == glob_key(cands[i]);
            assert(merged_keys[w] == glob_key(cands[i]));
        } else {
            let ks = glob_keys(accepted);
            let w = choose|w: int| 0 <= w < ks.len() && ks[w] == glob_key(cands[i]);
            assert(merged_keys[known.len() + w] == glob_key(cands[i]));
        }
    }
    lemma_suggest_empty(merged_keys, cands);
}

/// The decimal digit characters.
pub open spec fn digit_char(d: int) -> char {
    if d == 0 {
        '0'
    } else if d == 1 {
        '1'
    } else if d == 2 {
        '2'
    } else if d == 3 {
        '3'
    } else if d == 4 {
        '4'
    } else if d == 5 {
        '5'
    } else if d == 6 {
        '6'
    } else if d == 7 {
        '7'
    } else if d == 8 {
        '8'
    } else {
        '9'
    }
}

/// The decimal rendering of a non-negative number, most significant digit
/// first and without leading zeros.
pub open spec fn spec_decimal(n: int) -> Seq<char>
    decreases n,
{
    if n < 0 {
        Seq::<char>::empty()
    } else if n < 10 {
        seq![digit_char(n)]
    } else {
        spec_decimal(n / 10) + seq![digit_char(n % 10)]
    }
}

/// One decimal digit as a string slice.
fn digit_str(d: usize) -> (r: &'static str)
    requires
        d < 10,
    ensures
        r@ == seq![digit_char(d as int)],
{
    proof {
        reveal_strlit("0");
        reveal_strlit("1");
        reveal_strlit("2");
        reveal_strlit("3");
        reveal_strlit("4");
        reveal_strlit("5");
        reveal_strlit("6");
        reveal_strlit("7");
        reveal_strlit("8");
        reveal_strlit("9");
        assert("0"@ =~= seq![digit_char(0)]);
        assert("1"@ =~= seq![digit_char(1)]);
        assert("2"@ =~= seq![digit_char(2)]);
        assert("3"@ =~= seq![digit_char(3)]);
        assert("4"@ =~= seq![digit_char(4)]);
        assert("5"@ =~= seq![digit_char(5)]);
        assert("6"@ =~= seq![digit_char(6)]);
        assert("7"@ =~= seq![digit_char(7)]);
        assert("8"@ =~= seq![digit_char(8)]);
        assert("9"@ =~= seq![digit_char(9)]);
    }
    if d == 0 {
        "0"
    } else if d == 1 {
        "1"
    } else if d == 2 {
        "2"
    } else if d == 3 {
        "3"
    } else if d == 4 {
        "4"
    } else if d == 5 {
        "5"
    } else if d == 6 {
        "6"
    } else if d == 7 {
        "7"
    } else if d == 8 {
        "8"
    } else {
        "9"
    }
}

/// Renders a count in decimal.
pub fn usize_to_string(n: usize) -> (s: String)
    ensures
        s@ == spec_decimal(n as int),
    decreases n,
{
    if n < 10 {
        String::from_str(digit_str(n))
    } else {
        let mut s = usize_to_string(n / 10);
        s.append(digit_str(n % 10));
        s
    }
}

/// The sentence reported to the user after a suggestion pass over `n`
/// accepted candidates.
pub fn suggest_summary(n: usize) -> (s: String)
    ensures
        n == 0 ==> s@ == "No new rules to suggest."@,
        n == 1 ==> s@ == "1 new rule suggested."@,
        n >= 2 ==> s@ == spec_decimal(n as int) + " new rules suggested."@,
{
    if n == 0 {
        String::from_str("No new rules to suggest.")
    } else if n == 1 {
        String::from_str("1 new rule suggested.")
    } else {
        let mut s = usize_to_string(n);
        s.append(" new rules suggested.");
        s
    }
}

} // verus!
