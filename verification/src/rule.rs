//! The rule data model and its line grammar.
//!
//! A rule line has the shape `[<attrs>]<pattern>`: a comma-separated attribute
//! block in brackets followed by a path pattern. Each attribute kind may occur
//! at most once and falls back to its default when absent; a token that matches
//! no kind is a hard error.

use vstd::prelude::*;

use crate::errors::ParseError;
use crate::strutil::{
    is_prefix, is_space_char, lemma_split_single, lemma_split_step, lemma_trim_clean,
    lemma_trim_space_head, split_char_spec, split_trim_commas, str_eq, trim, trim_spec,
};

verus! {

/// The `Sync` attribute: whether matched items are synchronized, ignored, or
/// treated as disposable.
#[derive(Clone, Copy, PartialEq, Eq, Structural, Debug)]
pub enum Action {
    Sync,
    Ignore,
    Junk,
}

/// The `Date` attribute: which timestamp a synced file keeps.
#[derive(Clone, Copy, PartialEq, Eq, Structural, Debug)]
pub enum Timestamp {
    Remote,
    Local,
}

/// The `Thread` attribute: the thread class used for syncing.
#[derive(Clone, Copy, PartialEq, Eq, Structural, Debug)]
pub enum ThreadType {
    Norm,
    High,
}

/// The `PathType` attribute: the scope of the rule.
#[derive(Clone, Copy, PartialEq, Eq, Structural, Debug)]
pub enum Pathtype {
    File,
    Dir,
    All,
}

/// The mathematical model of a rule: its attributes and its path pattern as a
/// character sequence.
pub ghost struct RuleV {
    pub action: Action,
    pub ts: Timestamp,
    pub thr: ThreadType,
    pub prio: u32,
    pub path_type: Pathtype,
    pub case_sens: bool,
    pub path: Seq<char>,
}

/// One policy entry of a roaming filter.
#[derive(Debug)]
pub struct Rule {
    pub action: Action,
    pub ts: Timestamp,
    pub thr: ThreadType,
    pub prio: u32,
    pub path_type: Pathtype,
    pub case_sens: bool,
    pub path: String,
}

impl View for Rule {
    type V = RuleV;

    open spec fn view(&self) -> RuleV {
        RuleV {
            action: self.action,
            ts: self.ts,
            thr: self.thr,
            prio: self.prio,
            path_type: self.path_type,
            case_sens: self.case_sens,
            path: self.path@,
        }
    }
}

impl DeepView for Rule {
    type V = RuleV;

    open spec fn deep_view(&self) -> RuleV {
        self@
    }
}

impl Clone for Rule {
    fn clone(&self) -> (r: Rule)
        ensures
            r == *self,
    {
        Rule {
            action: self.action,
            ts: self.ts,
            thr: self.thr,
            prio: self.prio,
            path_type: self.path_type,
            case_sens: self.case_sens,
            path: self.path.clone(),
        }
    }
}

impl PartialEq for Rule {
    fn eq(&self, other: &Rule) -> (r: bool) {
        self.action == other.action && self.ts == other.ts && self.thr == other.thr && self.prio
            == other.prio && self.path_type == other.path_type && self.case_sens
            == other.case_sens && self.path == other.path
    }
}

impl vstd::std_specs::cmp::PartialEqSpecImpl for Rule {
    open spec fn obeys_eq_spec() -> bool {
        true
    }

    open spec fn eq_spec(&self, other: &Rule) -> bool {
        self@ == other@
    }
}

/// A rule is well formed when its priority lies in the documented range and
/// its pattern is non-empty.
pub open spec fn wf_rule(r: RuleV) -> bool {
    1 <= r.prio <= 5 && r.path.len() > 0
}

/// Decodes an attribute token as the `Sync` kind (`Sync`, `Ignore`, `Junk`,
/// each optionally prefixed with `Sync=`).
pub open spec fn action_of_token(t: Seq<char>) -> Option<Action> {
    if t == "Sync"@ || t == "Sync=Sync"@ {
        Some(Action::Sync)
    } else if t == "Ignore"@ || t == "Sync=Ignore"@ {
        Some(Action::Ignore)
    } else if t == "Junk"@ || t == "Sync=Junk"@ {
        Some(Action::Junk)
    } else {
        None
    }
}

/// Decodes an attribute token as the `Date` kind.
pub open spec fn date_of_token(t: Seq<char>) -> Option<Timestamp> {
    if t == "Date=Remote"@ {
        Some(Timestamp::Remote)
    } else if t == "Date=Local"@ {
        Some(Timestamp::Local)
    } else {
        None
    }
}

/// Decodes an attribute token as the `Thread` kind.
pub open spec fn thread_of_token(t: Seq<char>) -> Option<ThreadType> {
    if t == "Thread=Normal"@ {
        Some(ThreadType::Norm)
    } else if t == "Thread=Priority"@ {
        Some(ThreadType::High)
    } else {
        None
    }
}

/// Decodes an attribute token as the `Priority` kind; only values 1 through 5
/// are recognized.
pub open spec fn prio_of_token(t: Seq<char>) -> Option<u32> {
    if t == "Priority=1"@ {
        Some(1u32)
    } else if t == "Priority=2"@ {
        Some(2u32)
    } else if t == "Priority=3"@ {
        Some(3u32)
    } else if t == "Priority=4"@ {
        Some(4u32)
    } else if t == "Priority=5"@ {
        Some(5u32)
    } else {
        None
    }
}

/// Decodes an attribute token as the `PathType` kind (`File`, `Directory`,
/// `Unspecified`, each optionally prefixed with `PathType=`).
pub open spec fn ptype_of_token(t: Seq<char>) -> Option<Pathtype> {
    if t == "File"@ || t == "PathType=File"@ {
        Some(Pathtype::File)
    } else if t == "Directory"@ || t == "PathType=Directory"@ {
        Some(Pathtype::Dir)
    } else if t == "Unspecified"@ || t == "PathType=Unspecified"@ {
        Some(Pathtype::All)
    } else {
        None
    }
}

/// Decodes an attribute token as the `CaseSensitive` kind (`True`, `False`,
/// each optionally prefixed with `CaseSensitive=`).
pub open spec fn case_of_token(t: Seq<char>) -> Option<bool> {
    if t == "True"@ || t == "CaseSensitive=True"@ {
        Some(true)
    } else if t == "False"@ || t == "CaseSensitive=False"@ {
        Some(false)
    } else {
        None
    }
}

fn decode_action(t: &str) -> (r: Option<Action>)
    ensures
        r == action_of_token(t@),
{
    if str_eq(t, "Sync") || str_eq(t, "Sync=Sync") {
        Some(Action::Sync)
    } else if str_eq(t, "Ignore") || str_eq(t, "Sync=Ignore") {
        Some(Action::Ignore)
    } else if str_eq(t, "Junk") || str_eq(t, "Sync=Junk") {
        Some(Action::Junk)
    } else {
        None
    }
}

fn decode_date(t: &str) -> (r: Option<Timestamp>)
    ensures
        r == date_of_token(t@),
{
    if str_eq(t, "Date=Remote") {
        Some(Timestamp::Remote)
    } else if str_eq(t, "Date=Local") {
        Some(Timestamp::Local)
    } else {
        None
    }
}

fn decode_thread(t: &str) -> (r: Option<ThreadType>)
    ensures
        r == thread_of_token(t@),
{
    if str_eq(t, "Thread=Normal") {
        Some(ThreadType::Norm)
    } else if str_eq(t, "Thread=Priority") {
        Some(ThreadType::High)
    } else {
        None
    }
}

fn decode_prio(t: &str) -> (r: Option<u32>)
    ensures
        r == prio_of_token(t@),
{
    if str_eq(t, "Priority=1") {
        Some(1u32)
    } else if str_eq(t, "Priority=2") {
        Some(2u32)
    } else if str_eq(t, "Priority=3") {
        Some(3u32)
    } else if str_eq(t, "Priority=4") {
        Some(4u32)
    } else if str_eq(t, "Priority=5") {
        Some(5u32)
    } else {
        None
    }
}

fn decode_ptype(t: &str) -> (r: Option<Pathtype>)
    ensures
        r == ptype_of_token(t@),
{
    if str_eq(t, "File") || str_eq(t, "PathType=File") {
        Some(Pathtype::File)
    } else if str_eq(t, "Directory") || str_eq(t, "PathType=Directory") {
        Some(Pathtype::Dir)
    } else if str_eq(t, "Unspecified") || str_eq(t, "PathType=Unspecified") {
        Some(Pathtype::All)
    } else {
        None
    }
}

fn decode_case(t: &str) -> (r: Option<bool>)
    ensures
        r == case_of_token(t@),
{
    if str_eq(t, "True") || str_eq(t, "CaseSensitive=True") {
        Some(true)
    } else if str_eq(t, "False") || str_eq(t, "CaseSensitive=False") {
        Some(false)
    } else {
        None
    }
}

/// The attribute kinds, in the order they are extracted from a token list.
#[derive(Clone, Copy, PartialEq, Eq, Structural, Debug)]
pub enum AttrKind {
    Act,
    Date,
    Thr,
    Prio,
    Ptype,
    Case,
}

/// Whether token `t` is a recognized form of kind `k`.
pub open spec fn kind_decodes(k: AttrKind, t: Seq<char>) -> bool {
    match k {
        AttrKind::Act => action_of_token(t) is Some,
        AttrKind::Date => date_of_token(t) is Some,
        AttrKind::Thr => thread_of_token(t) is Some,
        AttrKind::Prio => prio_of_token(t) is Some,
        AttrKind::Ptype => ptype_of_token(t) is Some,
        AttrKind::Case => case_of_token(t) is Some,
    }
}

/// Decides `kind_decodes(k, t@)`.
fn token_matches(k: AttrKind, t: &str) -> (r: bool)
    ensures
        r == kind_decodes(k, t@),
{
    match k {
        AttrKind::Act => decode_action(t).is_some(),
        AttrKind::Date => decode_date(t).is_some(),
        AttrKind::Thr => decode_thread(t).is_some(),
        AttrKind::Prio => decode_prio(t).is_some(),
        AttrKind::Ptype => decode_ptype(t).is_some(),
        AttrKind::Case => decode_case(t).is_some(),
    }
}

/// Index of the first token of kind `k`, or `tokens.len()` when none matches.
pub open spec fn first_kind_idx(tokens: Seq<Seq<char>>, k: AttrKind) -> int
    decreases tokens.len(),
{
    if tokens.len() == 0 {
        0
    } else if kind_decodes(k, tokens[0]) {
        0
    } else {
        1 + first_kind_idx(tokens.drop_first(), k)
    }
}

/// `first_kind_idx` names the first matching token: everything before it does
/// not match, and it is in bounds exactly when some token matches.
pub proof fn lemma_first_kind_idx(tokens: Seq<Seq<char>>, k: AttrKind)
    ensures
        0 <= first_kind_idx(tokens, k) <= tokens.len(),
        first_kind_idx(tokens, k) < tokens.len() ==> kind_decodes(
            k,
            tokens[first_kind_idx(tokens, k)],
        ),
        forall|j: int| 0 <= j < first_kind_idx(tokens, k) ==> !kind_decodes(k, tokens[j]),
    decreases tokens.len(),
{
    if tokens.len() > 0 && !kind_decodes(k, tokens[0]) {
        lemma_first_kind_idx(tokens.drop_first(), k);
        assert forall|j: int| 0 <= j < first_kind_idx(tokens, k) implies !kind_decodes(
            k,
            tokens[j],
        ) by {
            if j > 0 {
                assert(tokens.drop_first()[j - 1] == tokens[j]);
                assert(j - 1 < first_kind_idx(tokens.drop_first(), k));
            }
        }
    }
}

/// Removes the first token of kind `k` from the list, if any, and hands it
/// back; absent kinds leave the list unchanged.
pub open spec fn extract_kind(tokens: Seq<Seq<char>>, k: AttrKind) -> (Option<Seq<char>>, Seq<
    Seq<char>,
>) {
    let i = first_kind_idx(tokens, k);
    if 0 <= i < tokens.len() {
        (Some(tokens[i]), tokens.remove(i))
    } else {
        (None, tokens)
    }
}

/// Scans `attrs` for the first token of kind `k`; on a match the token is
/// removed from the list and returned.
fn take_first(attrs: &mut Vec<String>, k: AttrKind) -> (found: Option<String>)
    ensures
        ({
            let (f, rest) = extract_kind(old(attrs).deep_view(), k);
            &&& (match found {
                Some(s) => f == Some(s@),
                None => f is None,
            })
            &&& final(attrs).deep_view() == rest
        }),
{
    let ghost toks = attrs.deep_view();
    let mut i: usize = 0;
    while i < attrs.len()
        invariant
            toks == old(attrs).deep_view(),
            toks == attrs.deep_view(),
            attrs@ == old(attrs)@,
            0 <= i <= attrs@.len(),
            forall|j: int| 0 <= j < i ==> !kind_decodes(k, toks[j]),
        decreases attrs@.len() - i,
    {
        assert(toks[i as int] == attrs@[i as int]@);
        if token_matches(k, attrs[i].as_str()) {
            let s = attrs.remove(i);
            proof {
                lemma_first_kind_idx(toks, k);
                let f = first_kind_idx(toks, k);
                if f < i {
                    assert(kind_decodes(k, toks[f]));
                    assert(false);
                }
                if f > i {
                    assert(!kind_decodes(k, toks[i as int]));
                    assert(false);
                }
                assert(s@ == toks[i as int]);
                assert(extract_kind(toks, k).0 == Some(toks[i as int]));
                assert(attrs.deep_view() =~= toks.remove(i as int));
                assert(extract_kind(toks, k).1 == toks.remove(i as int));
            }
            return Some(s);
        }
        i += 1;
    }
    proof {
        lemma_first_kind_idx(toks, k);
        let f = first_kind_idx(toks, k);
        if f < toks.len() {
            assert(!kind_decodes(k, toks[f]));
        }
    }
    None
}

/// Feeds the token list through the six attribute kinds in order, applying
/// each kind's default when it is absent; any token left over afterwards makes
/// the attribute block malformed.
pub open spec fn spec_parse_attrs(tokens: Seq<Seq<char>>, pattern: Seq<char>) -> Option<RuleV> {
    let (t_act, r1) = extract_kind(tokens, AttrKind::Act);
    let (t_date, r2) = extract_kind(r1, AttrKind::Date);
    let (t_thr, r3) = extract_kind(r2, AttrKind::Thr);
    let (t_prio, r4) = extract_kind(r3, AttrKind::Prio);
    let (t_pt, r5) = extract_kind(r4, AttrKind::Ptype);
    let (t_cs, r6) = extract_kind(r5, AttrKind::Case);
    if r6.len() == 0 {
        Some(
            RuleV {
                action: if t_act is Some {
                    action_of_token(t_act.unwrap()).unwrap()
                } else {
                    Action::Sync
                },
                ts: if t_date is Some {
                    date_of_token(t_date.unwrap()).unwrap()
                } else {
                    Timestamp::Remote
                },
                thr: if t_thr is Some {
                    thread_of_token(t_thr.unwrap()).unwrap()
                } else {
                    ThreadType::Norm
                },
                prio: if t_prio is Some {
                    prio_of_token(t_prio.unwrap()).unwrap()
                } else {
                    3u32
                },
                path_type: if t_pt is Some {
                    ptype_of_token(t_pt.unwrap()).unwrap()
                } else {
                    Pathtype::All
                },
                case_sens: if t_cs is Some {
                    case_of_token(t_cs.unwrap()).unwrap()
                } else {
                    false
                },
                path: pattern,
            },
        )
    } else {
        None
    }
}

/// Index of the last `]` in `s`, or -1 when `s` has none.
pub open spec fn last_close_idx(s: Seq<char>) -> int
    decreases s.len(),
{
    if s.len() == 0 {
        -1
    } else if s.last() == ']' {
        s.len() - 1
    } else {
        last_close_idx(s.drop_last())
    }
}

/// `last_close_idx` names the last `]`: everything after it differs from `]`,
/// and it is -1 exactly when `]` does not occur.
pub proof fn lemma_last_close_idx(s: Seq<char>)
    ensures
        -1 <= last_close_idx(s) < s.len(),
        last_close_idx(s) >= 0 ==> s[last_close_idx(s)] == ']',
        forall|k: int| last_close_idx(s) < k < s.len() ==> s[k] != ']',
    decreases s.len(),
{
    if s.len() > 0 && s.last() != ']' {
        lemma_last_close_idx(s.drop_last());
        assert forall|k: int| last_close_idx(s) < k < s.len() implies s[k] != ']' by {
            if k < s.len() - 1 {
                assert(s.drop_last()[k] == s[k]);
            }
        }
    }
}

/// Splits a rule line into its bracketed attribute block and its pattern, both
/// untrimmed. The closing bracket is the last `]` that leaves at least one
/// character of attribute text before it and one character of pattern text
/// after it; a line without that shape has no split.
pub open spec fn spec_split_line(line: Seq<char>) -> Option<(Seq<char>, Seq<char>)> {
    if line.len() >= 4 && line[0] == '[' {
        let j = last_close_idx(line.take(line.len() - 1));
        if j >= 2 {
            Some((line.subrange(1, j), line.subrange(j + 1, line.len() as int)))
        } else {
            None
        }
    } else {
        None
    }
}

/// Splits a rule line into its raw attribute block and raw pattern part.
pub fn get_attrs_and_path<'a>(rule: &'a str) -> (r: Option<(&'a str, &'a str)>)
    ensures
        match r {
            Some((a, p)) => spec_split_line(rule@) == Some((a@, p@)),
            None => spec_split_line(rule@) is None,
        },
{
    let len = rule.unicode_len();
    if len < 4 || rule.get_char(0) != '[' {
        return None;
    }
    let ghost head = rule@.take(len - 1);
    proof {
        lemma_last_close_idx(head);
    }
    let mut j: usize = len - 2;
    loop
        invariant
            len == rule@.len(),
            len >= 4,
            rule@[0] == '[',
            head == rule@.take(len - 1),
            2 <= j <= len - 2,
            forall|k: int| j < k < len - 1 ==> rule@[k] != ']',
        decreases j,
    {
        if rule.get_char(j) == ']' {
            proof {
                lemma_last_close_idx(head);
                assert forall|k: int| j < k < head.len() implies head[k] != ']' by {
                    assert(head[k] == rule@[k]);
                }
                assert(head[j as int] == rule@[j as int]);
                if last_close_idx(head) > j {
                    assert(head[last_close_idx(head)] == ']');
                }
                if last_close_idx(head) < j {
                    assert(false);
                }
            }
            let attrs = rule.substring_char(1, j);
            let pat = rule.substring_char(j + 1, len);
            return Some((attrs, pat));
        }
        if j == 2 {
            proof {
                lemma_last_close_idx(head);
                assert forall|k: int| 2 <= k < head.len() implies head[k] != ']' by {
                    assert(head[k] == rule@[k]);
                }
                if last_close_idx(head) >= 2 {
                    assert(head[last_close_idx(head)] == ']');
                }
            }
            return None;
        }
        j -= 1;
    }
}

/// Parses one rule line: the bracket structure is checked, the pattern and
/// each attribute token are trimmed, each attribute kind is extracted at most
/// once (defaults fill the gaps), and any unrecognized or leftover token is an
/// error.
pub open spec fn spec_parse(line: Seq<char>) -> Option<RuleV> {
    match spec_split_line(line) {
        Some((araw, praw)) => {
            let pattern = trim_spec(praw);
            if pattern.len() == 0 {
                None
            } else {
                spec_parse_attrs(
                    split_char_spec(araw, ',').map_values(|t: Seq<char>| trim_spec(t)),
                    pattern,
                )
            }
        },
        None => None,
    }
}

/// The error reported for a line that does not parse: a broken bracket
/// structure, an empty trimmed pattern, or a malformed attribute block, the
/// first of these that applies.
pub open spec fn spec_parse_error(line: Seq<char>) -> ParseError {
    match spec_split_line(line) {
        None => ParseError::Structure,
        Some(cap) => if trim_spec(cap.1).len() == 0 {
            ParseError::EmptyPattern
        } else {
            ParseError::Attribute
        },
    }
}

/// Parses one line of a filter file into a rule.
///
/// Succeeds exactly when the line has the `[<attrs>]<pattern>` shape, the
/// trimmed pattern is non-empty, and the attribute block is a comma-separated
/// list of recognized tokens with no kind repeated.
pub fn parse(line: &str) -> (r: Result<Rule, ParseError>)
    ensures
        r is Ok <==> spec_parse(line@) is Some,
        r matches Ok(rule) ==> spec_parse(line@) == Some(rule@) && wf_rule(rule@),
        r matches Err(e) ==> e == spec_parse_error(line@),
{
    let (attrs_raw, pat_raw) = match get_attrs_and_path(line) {
        Some(cap) => cap,
        None => {
            return Err(ParseError::Structure);
        },
    };
    let pat = trim(pat_raw);
    if pat.unicode_len() == 0 {
        return Err(ParseError::EmptyPattern);
    }
    let mut attrs = split_trim_commas(attrs_raw);
    let ghost toks0 = attrs.deep_view();
    let t_act = take_first(&mut attrs, AttrKind::Act);
    let ghost r1 = attrs.deep_view();
    let t_date = take_first(&mut attrs, AttrKind::Date);
    let ghost r2 = attrs.deep_view();
    let t_thr = take_first(&mut attrs, AttrKind::Thr);
    let ghost r3 = attrs.deep_view();
    let t_prio = take_first(&mut attrs, AttrKind::Prio);
    let ghost r4 = attrs.deep_view();
    let t_pt = take_first(&mut attrs, AttrKind::Ptype);
    let ghost r5 = attrs.deep_view();
    let t_cs = take_first(&mut attrs, AttrKind::Case);
    let ghost r6 = attrs.deep_view();
    if attrs.len() != 0 {
        proof {
            assert(r6.len() == attrs@.len());
            assert(spec_parse_attrs(toks0, trim_spec(pat_raw@)) is None);
        }
        return Err(ParseError::Attribute);
    }
    let action = match t_act {
        Some(s) => {
            proof {
                lemma_first_kind_idx(toks0, AttrKind::Act);
                assert(kind_decodes(AttrKind::Act, s@));
            }
            decode_action(s.as_str()).unwrap()
        },
        None => Action::Sync,
    };
    let ts = match t_date {
        Some(s) => {
            proof {
                lemma_first_kind_idx(r1, AttrKind::Date);
                assert(kind_decodes(AttrKind::Date, s@));
            }
            decode_date(s.as_str()).unwrap()
        },
        None => Timestamp::Remote,
    };
    let thr = match t_thr {
        Some(s) => {
            proof {
                lemma_first_kind_idx(r2, AttrKind::Thr);
                assert(kind_decodes(AttrKind::Thr, s@));
            }
            decode_thread(s.as_str()).unwrap()
        },
        None => ThreadType::Norm,
    };
    let prio = match t_prio {
        Some(s) => {
            proof {
                lemma_first_kind_idx(r3, AttrKind::Prio);
                assert(kind_decodes(AttrKind::Prio, s@));
            }
            decode_prio(s.as_str()).unwrap()
        },
        None => 3u32,
    };
    let path_type = match t_pt {
        Some(s) => {
            proof {
                lemma_first_kind_idx(r4, AttrKind::Ptype);
                assert(kind_decodes(AttrKind::Ptype, s@));
            }
            decode_ptype(s.as_str()).unwrap()
        },
        None => Pathtype::All,
    };
    let case_sens = match t_cs {
        Some(s) => {
            proof {
                lemma_first_kind_idx(r5, AttrKind::Case);
                assert(kind_decodes(AttrKind::Case, s@));
            }
            decode_case(s.as_str()).unwrap()
        },
        None => false,
    };
    let rule = Rule {
        action,
        ts,
        thr,
        prio,
        path_type,
        case_sens,
        path: pat.to_owned(),
    };
    proof {
        let pattern = trim_spec(pat_raw@);
        assert(rule@.path == pattern);
        assert(spec_parse_attrs(toks0, pattern) == Some(rule@));
        assert(spec_parse(line@) == Some(rule@));
    }
    Ok(rule)
}

/// The canonical token of the `Sync` attribute.
pub open spec fn action_str(a: Action) -> Seq<char> {
    match a {
        Action::Sync => "Sync"@,
        Action::Ignore => "Ignore"@,
        Action::Junk => "Junk"@,
    }
}

/// The canonical token of the `Date` attribute.
pub open spec fn date_str(t: Timestamp) -> Seq<char> {
    match t {
        Timestamp::Remote => "Date=Remote"@,
        Timestamp::Local => "Date=Local"@,
    }
}

/// The canonical token of the `Thread` attribute.
pub open spec fn thread_str(t: ThreadType) -> Seq<char> {
    match t {
        ThreadType::Norm => "Thread=Normal"@,
        ThreadType::High => "Thread=Priority"@,
    }
}

/// The canonical token of the `Priority` attribute; values outside the
/// documented range render as the nearest bound.
pub open spec fn prio_str(p: u32) -> Seq<char> {
    if p <= 1 {
        "Priority=1"@
    } else if p == 2 {
        "Priority=2"@
    } else if p == 3 {
        "Priority=3"@
    } else if p == 4 {
        "Priority=4"@
    } else {
        "Priority=5"@
    }
}

/// The canonical token of the `PathType` attribute; the unspecified scope has
/// no token of its own.
pub open spec fn ptype_str(pt: Pathtype) -> Seq<char> {
    match pt {
        Pathtype::File => "PathType=File"@,
        Pathtype::Dir => "PathType=Directory"@,
        Pathtype::All => Seq::<char>::empty(),
    }
}

/// The canonical `PathType` list segment; the unspecified scope is omitted
/// entirely rather than written out.
pub open spec fn ptype_seg(pt: Pathtype) -> Seq<char> {
    match pt {
        Pathtype::File => ", "@ + ptype_str(pt),
        Pathtype::Dir => ", "@ + ptype_str(pt),
        Pathtype::All => Seq::<char>::empty(),
    }
}

/// The canonical token of the `CaseSensitive` attribute.
pub open spec fn case_str(b: bool) -> Seq<char> {
    if b {
        "CaseSensitive=True"@
    } else {
        "CaseSensitive=False"@
    }
}

/// Whether every attribute of `r` other than its action has its default value;
/// such a rule is rendered in the abbreviated single-attribute form.
pub open spec fn is_default_except_action(r: RuleV) -> bool {
    r.ts == Timestamp::Remote && r.thr == ThreadType::Norm && r.prio == 3 && r.path_type
        == Pathtype::All && !r.case_sens
}

/// The canonical attribute block of a rule: the action alone when everything
/// else is default, and otherwise the full comma-separated list with the
/// unspecified scope omitted.
pub open spec fn attrs_body(r: RuleV) -> Seq<char> {
    if is_default_except_action(r) {
        action_str(r.action)
    } else {
        action_str(r.action) + ", "@ + date_str(r.ts) + ", "@ + thread_str(r.thr) + ", "@
            + prio_str(r.prio) + ptype_seg(r.path_type) + ", "@ + case_str(r.case_sens)
    }
}

/// The canonical line of a rule: its attribute block in brackets, one space,
/// and its pattern.
pub open spec fn spec_serialize(r: RuleV) -> Seq<char> {
    "["@ + attrs_body(r) + "] "@ + r.path
}

/// The canonical action token as a string slice.
fn action_token(a: Action) -> (r: &'static str)
    ensures
        r@ == action_str(a),
{
    match a {
        Action::Sync => "Sync",
        Action::Ignore => "Ignore",
        Action::Junk => "Junk",
    }
}

/// The canonical `Date` token as a string slice.
fn date_token(t: Timestamp) -> (r: &'static str)
    ensures
        r@ == date_str(t),
{
    match t {
        Timestamp::Remote => "Date=Remote",
        Timestamp::Local => "Date=Local",
    }
}

/// The canonical `Thread` token as a string slice.
fn thread_token(t: ThreadType) -> (r: &'static str)
    ensures
        r@ == thread_str(t),
{
    match t {
        ThreadType::Norm => "Thread=Normal",
        ThreadType::High => "Thread=Priority",
    }
}

/// The canonical `Priority` token as a string slice.
fn prio_token(p: u32) -> (r: &'static str)
    ensures
        r@ == prio_str(p),
{
    if p <= 1 {
        "Priority=1"
    } else if p == 2 {
        "Priority=2"
    } else if p == 3 {
        "Priority=3"
    } else if p == 4 {
        "Priority=4"
    } else {
        "Priority=5"
    }
}

/// The canonical `CaseSensitive` token as a string slice.
fn case_token(b: bool) -> (r: &'static str)
    ensures
        r@ == case_str(b),
{
    if b {
        "CaseSensitive=True"
    } else {
        "CaseSensitive=False"
    }
}

/// Renders a rule in its canonical line form, ready to be written back to a
/// filter file and parsed again.
#[verifier::rlimit(50)]
pub fn serialize(rule: &Rule) -> (r: String)
    ensures
        r@ == spec_serialize(rule@),
{
    let mut s = String::from_str("[");
    s.append(action_token(rule.action));
    if rule.ts == Timestamp::Remote && rule.thr == ThreadType::Norm && rule.prio == 3
        && rule.path_type == Pathtype::All && !rule.case_sens {
        proof {
            assert(s@ =~= "["@ + attrs_body(rule@));
        }
        s.append("] ");
        s.append(rule.path.as_str());
        proof {
            assert(s@ =~= spec_serialize(rule@));
        }
        return s;
    }
    s.append(", ");
    s.append(date_token(rule.ts));
    s.append(", ");
    s.append(thread_token(rule.thr));
    s.append(", ");
    s.append(prio_token(rule.prio));
    match rule.path_type {
        Pathtype::File => {
            s.append(", ");
            s.append("PathType=File");
        },
        Pathtype::Dir => {
            s.append(", ");
            s.append("PathType=Directory");
        },
        Pathtype::All => (),
    }
    s.append(", ");
    s.append(case_token(rule.case_sens));
    proof {
        assert(s@ =~= "["@ + attrs_body(rule@));
    }
    s.append("] ");
    s.append(rule.path.as_str());
    proof {
        assert(s@ =~= spec_serialize(rule@));
    }
    s
}


/// Facts about the canonical action token: it decodes back to its action, it
/// holds no comma, and it neither starts nor ends with whitespace.
proof fn lemma_action_token_facts(a: Action)
    ensures
        action_of_token(action_str(a)) == Some(a),
        action_str(a).len() > 0,
        forall|k: int| 0 <= k < action_str(a).len() ==> action_str(a)[k] != ',',
        !is_space_char(action_str(a)[0]),
        !is_space_char(action_str(a).last()),
{
    reveal_strlit("Sync");
    reveal_strlit("Ignore");
    reveal_strlit("Junk");
    reveal_strlit("Sync=Sync");
    reveal_strlit("Sync=Ignore");
    reveal_strlit("Sync=Junk");
    assert("Sync"@.len() == 4);
    assert("Ignore"@.len() == 6);
    assert("Junk"@.len() == 4);
    assert("Sync=Sync"@.len() == 9);
    assert("Sync=Ignore"@.len() == 11);
    assert("Sync=Junk"@.len() == 9);
    assert("Sync"@[0] == 'S' && "Junk"@[0] == 'J');
    assert("Sync=Sync"@[5] == 'S' && "Sync=Junk"@[5] == 'J');
}

/// Facts about the canonical `Date` token.
proof fn lemma_date_token_facts(t: Timestamp)
    ensures
        date_of_token(date_str(t)) == Some(t),
        date_str(t).len() > 0,
        forall|k: int| 0 <= k < date_str(t).len() ==> date_str(t)[k] != ',',
        !is_space_char(date_str(t)[0]),
        !is_space_char(date_str(t).last()),
{
    reveal_strlit("Date=Remote");
    reveal_strlit("Date=Local");
    assert("Date=Remote"@.len() == 11);
    assert("Date=Local"@.len() == 10);
}

/// Facts about the canonical `Thread` token.
proof fn lemma_thread_token_facts(t: ThreadType)
    ensures
        thread_of_token(thread_str(t)) == Some(t),
        thread_str(t).len() > 0,
        forall|k: int| 0 <= k < thread_str(t).len() ==> thread_str(t)[k] != ',',
        !is_space_char(thread_str(t)[0]),
        !is_space_char(thread_str(t).last()),
{
    reveal_strlit("Thread=Normal");
    reveal_strlit("Thread=Priority");
    assert("Thread=Normal"@.len() == 13);
    assert("Thread=Priority"@.len() == 15);
}

/// Facts about the canonical `Priority` token of an in-range priority.
proof fn lemma_prio_token_facts(p: u32)
    requires
        1 <= p <= 5,
    ensures
        prio_of_token(prio_str(p)) == Some(p),
        prio_str(p).len() > 0,
        forall|k: int| 0 <= k < prio_str(p).len() ==> prio_str(p)[k] != ',',
        !is_space_char(prio_str(p)[0]),
        !is_space_char(prio_str(p).last()),
{
    reveal_strlit("Priority=1");
    reveal_strlit("Priority=2");
    reveal_strlit("Priority=3");
    reveal_strlit("Priority=4");
    reveal_strlit("Priority=5");
    assert("Priority=1"@.len() == 10 && "Priority=1"@[9] == '1');
    assert("Priority=2"@.len() == 10 && "Priority=2"@[9] == '2');
    assert("Priority=3"@.len() == 10 && "Priority=3"@[9] == '3');
    assert("Priority=4"@.len() == 10 && "Priority=4"@[9] == '4');
    assert("Priority=5"@.len() == 10 && "Priority=5"@[9] == '5');
}

/// Facts about the canonical `PathType` token of a specified scope.
proof fn lemma_ptype_token_facts(pt: Pathtype)
    requires
        pt != Pathtype::All,
    ensures
        ptype_of_token(ptype_str(pt)) == Some(pt),
        ptype_str(pt).len() > 0,
        forall|k: int| 0 <= k < ptype_str(pt).len() ==> ptype_str(pt)[k] != ',',
        !is_space_char(ptype_str(pt)[0]),
        !is_space_char(ptype_str(pt).last()),
{
    reveal_strlit("File");
    reveal_strlit("Directory");
    reveal_strlit("Unspecified");
    reveal_strlit("PathType=File");
    reveal_strlit("PathType=Directory");
    reveal_strlit("PathType=Unspecified");
    assert("File"@.len() == 4);
    assert("Directory"@.len() == 9);
    assert("Unspecified"@.len() == 11);
    assert("PathType=File"@.len() == 13);
    assert("PathType=Directory"@.len() == 18);
    assert("PathType=Unspecified"@.len() == 20);
}

/// Facts about the canonical `CaseSensitive` token; it is also no `PathType`
/// token, which matters because the `PathType` kind is extracted first.
proof fn lemma_case_token_facts(b: bool)
    ensures
        case_of_token(case_str(b)) == Some(b),
        ptype_of_token(case_str(b)) is None,
        case_str(b).len() > 0,
        forall|k: int| 0 <= k < case_str(b).len() ==> case_str(b)[k] != ',',
        !is_space_char(case_str(b)[0]),
        !is_space_char(case_str(b).last()),
{
    reveal_strlit("True");
    reveal_strlit("False");
    reveal_strlit("CaseSensitive=True");
    reveal_strlit("CaseSensitive=False");
    reveal_strlit("File");
    reveal_strlit("Directory");
    reveal_strlit("Unspecified");
    reveal_strlit("PathType=File");
    reveal_strlit("PathType=Directory");
    reveal_strlit("PathType=Unspecified");
    assert("True"@.len() == 4);
    assert("False"@.len() == 5);
    assert("CaseSensitive=True"@.len() == 18);
    assert("CaseSensitive=False"@.len() == 19);
    assert("File"@.len() == 4);
    assert("Directory"@.len() == 9);
    assert("Unspecified"@.len() == 11);
    assert("PathType=File"@.len() == 13);
    assert("PathType=Directory"@.len() == 18);
    assert("PathType=Unspecified"@.len() == 20);
    assert("CaseSensitive=True"@[0] == 'C' && "PathType=Directory"@[0] == 'P');
}

/// Appending `]`-free text leaves the last `]` where it was.
proof fn lemma_last_close_concat_clean(s: Seq<char>, t: Seq<char>)
    requires
        forall|k: int| 0 <= k < t.len() ==> t[k] != ']',
    ensures
        last_close_idx(s + t) == last_close_idx(s),
    decreases t.len(),
{
    if t.len() == 0 {
        assert(s + t =~= s);
    } else {
        let st = s + t;
        assert(st.last() == t.last());
        assert(t.last() != ']');
        assert(st.drop_last() =~= s + t.drop_last());
        assert(forall|k: int| 0 <= k < t.drop_last().len() ==> t.drop_last()[k] == t[k]);
        lemma_last_close_concat_clean(s, t.drop_last());
    }
}

/// A serialized line splits at the `]` written by the serializer: everything
/// in the brackets is the attribute block, and the pattern follows one space
/// later. The pattern may end with `]` but holds none earlier.
proof fn lemma_split_serialized_line(attrs: Seq<char>, path: Seq<char>)
    requires
        attrs.len() >= 1,
        path.len() >= 1,
        forall|i: int| 0 <= i < path.len() - 1 ==> path[i] != ']',
    ensures
        spec_split_line("["@ + attrs + "] "@ + path) == Some((attrs, seq![' '] + path)),
{
    reveal_strlit("[");
    reveal_strlit("] ");
    let line = "["@ + attrs + "] "@ + path;
    assert(line.len() == 3 + attrs.len() + path.len());
    assert(line[0] == '[');
    let pre = "["@ + attrs + "] "@;
    let head = line.take(line.len() - 1);
    let ptrunc = path.take(path.len() - 1);
    assert(head =~= pre + ptrunc);
    assert(forall|k: int| 0 <= k < ptrunc.len() ==> ptrunc[k] == path[k]);
    lemma_last_close_concat_clean(pre, ptrunc);
    assert(pre.last() == ' ');
    assert(last_close_idx(pre) == last_close_idx(pre.drop_last()));
    let closed = "["@ + attrs + seq![']'];
    assert(pre.drop_last() =~= closed);
    assert(closed.last() == ']');
    assert(last_close_idx(closed) == closed.len() - 1);
    let j = 1 + attrs.len() as int;
    assert(last_close_idx(head) == j);
    assert(line.subrange(1, j) =~= attrs);
    assert(line.subrange(j + 1, line.len() as int) =~= seq![' '] + path);
}

/// Round trip of a rule whose attributes other than the action are all
/// default, rendered in the abbreviated form.
#[verifier::rlimit(100)]
#[verifier::spinoff_prover]
proof fn lemma_roundtrip_abbrev(r: RuleV)
    requires
        wf_rule(r),
        trim_spec(r.path) == r.path,
        forall|i: int| 0 <= i < r.path.len() - 1 ==> r.path[i] != ']',
        is_default_except_action(r),
    ensures
        spec_parse(spec_serialize(r)) == Some(r),
{
    let path = r.path;
    let tr = |t: Seq<char>| trim_spec(t);
    let t1 = action_str(r.action);
    lemma_action_token_facts(r.action);
    lemma_trim_space_head(path);
    lemma_trim_clean(t1);
    let line = spec_serialize(r);
    assert(attrs_body(r) == t1);
    lemma_split_serialized_line(t1, path);
    assert(trim_spec(seq![' '] + path) == path);
    lemma_split_single(t1);
    let tokens = split_char_spec(t1, ',').map_values(tr);
    assert(tokens =~= seq![t1]);
    assert(kind_decodes(AttrKind::Act, tokens[0]));
    assert(first_kind_idx(tokens, AttrKind::Act) == 0);
    let rest = tokens.remove(0);
    assert(rest =~= Seq::<Seq<char>>::empty());
    assert(extract_kind(tokens, AttrKind::Act) == (Some(t1), rest));
    assert(first_kind_idx(rest, AttrKind::Date) == 0);
    assert(extract_kind(rest, AttrKind::Date) == (None::<Seq<char>>, rest));
    assert(extract_kind(rest, AttrKind::Thr) == (None::<Seq<char>>, rest));
    assert(extract_kind(rest, AttrKind::Prio) == (None::<Seq<char>>, rest));
    assert(extract_kind(rest, AttrKind::Ptype) == (None::<Seq<char>>, rest));
    assert(extract_kind(rest, AttrKind::Case) == (None::<Seq<char>>, rest));
    assert(spec_parse_attrs(tokens, path) == Some(r));
    assert(spec_parse(line) == Some(r));
}

/// The attribute block of a rule in the full form splits and trims into its
/// canonical tokens, scope token included only for a specified scope.
#[verifier::rlimit(100)]
#[verifier::spinoff_prover]
proof fn lemma_full_attr_tokens(r: RuleV)
    requires
        1 <= r.prio <= 5,
        !is_default_except_action(r),
    ensures
        ({
            let tokens = split_char_spec(attrs_body(r), ',').map_values(
                |t: Seq<char>| trim_spec(t),
            );
            if r.path_type == Pathtype::All {
                tokens == seq![
                    action_str(r.action),
                    date_str(r.ts),
                    thread_str(r.thr),
                    prio_str(r.prio),
                    case_str(r.case_sens),
                ]
            } else {
                tokens == seq![
                    action_str(r.action),
                    date_str(r.ts),
                    thread_str(r.thr),
                    prio_str(r.prio),
                    ptype_str(r.path_type),
                    case_str(r.case_sens),
                ]
            }
        }),
{
    reveal_strlit(", ");
    let comma = seq![','];
    let sp = seq![' '];
    assert(", "@ =~= comma + sp);
    let tr = |t: Seq<char>| trim_spec(t);
    let t1 = action_str(r.action);
    let t2 = date_str(r.ts);
    let t3 = thread_str(r.thr);
    let t4 = prio_str(r.prio);
    let t5 = ptype_str(r.path_type);
    let t6 = case_str(r.case_sens);
    lemma_action_token_facts(r.action);
    lemma_date_token_facts(r.ts);
    lemma_thread_token_facts(r.thr);
    lemma_prio_token_facts(r.prio);
    lemma_case_token_facts(r.case_sens);
    lemma_trim_clean(t1);
    lemma_trim_clean(t2);
    lemma_trim_clean(t3);
    lemma_trim_clean(t4);
    lemma_trim_clean(t6);
    lemma_trim_space_head(t2);
    lemma_trim_space_head(t3);
    lemma_trim_space_head(t4);
    lemma_trim_space_head(t6);
    let ab = attrs_body(r);
    let y4 = sp + t6;
    lemma_split_single(y4);
    if r.path_type == Pathtype::All {
        let y3 = sp + t4 + comma + y4;
        let y2 = sp + t3 + comma + y3;
        let y1 = sp + t2 + comma + y2;
        assert(ab =~= t1 + comma + y1);
        assert(y1 =~= (sp + t2) + comma + y2);
        assert(y2 =~= (sp + t3) + comma + y3);
        assert(y3 =~= (sp + t4) + comma + y4);
        lemma_split_step(t1, y1);
        lemma_split_step(sp + t2, y2);
        lemma_split_step(sp + t3, y3);
        lemma_split_step(sp + t4, y4);
        let raw = split_char_spec(ab, ',');
        assert(raw =~= seq![t1, sp + t2, sp + t3, sp + t4, sp + t6]);
        assert(raw.map_values(tr) =~= seq![t1, t2, t3, t4, t6]);
    } else {
        lemma_ptype_token_facts(r.path_type);
        lemma_trim_clean(t5);
        lemma_trim_space_head(t5);
        assert(ptype_seg(r.path_type) == ", "@ + t5);
        let y3b = sp + t5 + comma + y4;
        let y3 = sp + t4 + comma + y3b;
        let y2 = sp + t3 + comma + y3;
        let y1 = sp + t2 + comma + y2;
        assert(ab =~= t1 + comma + y1);
        assert(y1 =~= (sp + t2) + comma + y2);
        assert(y2 =~= (sp + t3) + comma + y3);
        assert(y3 =~= (sp + t4) + comma + y3b);
        assert(y3b =~= (sp + t5) + comma + y4);
        lemma_split_step(t1, y1);
        lemma_split_step(sp + t2, y2);
        lemma_split_step(sp + t3, y3);
        lemma_split_step(sp + t4, y3b);
        lemma_split_step(sp + t5, y4);
        let raw = split_char_spec(ab, ',');
        assert(raw =~= seq![t1, sp + t2, sp + t3, sp + t4, sp + t5, sp + t6]);
        assert(raw.map_values(tr) =~= seq![t1, t2, t3, t4, t5, t6]);
    }
}

/// Extracting the six attribute kinds from the canonical full token list
/// recovers each attribute of the rule.
#[verifier::rlimit(100)]
#[verifier::spinoff_prover]
proof fn lemma_full_extract(r: RuleV, pattern: Seq<char>)
    requires
        1 <= r.prio <= 5,
        r.path == pattern,
    ensures
        r.path_type == Pathtype::All ==> spec_parse_attrs(
            seq![
                action_str(r.action),
                date_str(r.ts),
                thread_str(r.thr),
                prio_str(r.prio),
                case_str(r.case_sens),
            ],
            pattern,
        ) == Some(r),
        r.path_type != Pathtype::All ==> spec_parse_attrs(
            seq![
                action_str(r.action),
                date_str(r.ts),
                thread_str(r.thr),
                prio_str(r.prio),
                ptype_str(r.path_type),
                case_str(r.case_sens),
            ],
            pattern,
        ) == Some(r),
{
    let t1 = action_str(r.action);
    let t2 = date_str(r.ts);
    let t3 = thread_str(r.thr);
    let t4 = prio_str(r.prio);
    let t5 = ptype_str(r.path_type);
    let t6 = case_str(r.case_sens);
    lemma_action_token_facts(r.action);
    lemma_date_token_facts(r.ts);
    lemma_thread_token_facts(r.thr);
    lemma_prio_token_facts(r.prio);
    lemma_case_token_facts(r.case_sens);
    if r.path_type == Pathtype::All {
        let tokens = seq![t1, t2, t3, t4, t6];
        assert(kind_decodes(AttrKind::Act, tokens[0]));
        assert(first_kind_idx(tokens, AttrKind::Act) == 0);
        let r1 = tokens.remove(0);
        assert(extract_kind(tokens, AttrKind::Act) == (Some(t1), r1));
        assert(r1 =~= seq![t2, t3, t4, t6]);
        assert(kind_decodes(AttrKind::Date, r1[0]));
        assert(first_kind_idx(r1, AttrKind::Date) == 0);
        let r2 = r1.remove(0);
        assert(extract_kind(r1, AttrKind::Date) == (Some(t2), r2));
        assert(r2 =~= seq![t3, t4, t6]);
        assert(kind_decodes(AttrKind::Thr, r2[0]));
        assert(first_kind_idx(r2, AttrKind::Thr) == 0);
        let r3 = r2.remove(0);
        assert(extract_kind(r2, AttrKind::Thr) == (Some(t3), r3));
        assert(r3 =~= seq![t4, t6]);
        assert(kind_decodes(AttrKind::Prio, r3[0]));
        assert(first_kind_idx(r3, AttrKind::Prio) == 0);
        let r4 = r3.remove(0);
        assert(extract_kind(r3, AttrKind::Prio) == (Some(t4), r4));
        assert(r4 =~= seq![t6]);
        assert(!kind_decodes(AttrKind::Ptype, r4[0]));
        assert(r4.drop_first() =~= Seq::<Seq<char>>::empty());
        assert(first_kind_idx(r4.drop_first(), AttrKind::Ptype) == 0);
        assert(first_kind_idx(r4, AttrKind::Ptype) == 1);
        assert(extract_kind(r4, AttrKind::Ptype) == (None::<Seq<char>>, r4));
        assert(kind_decodes(AttrKind::Case, r4[0]));
        assert(first_kind_idx(r4, AttrKind::Case) == 0);
        let r5 = r4.remove(0);
        assert(extract_kind(r4, AttrKind::Case) == (Some(t6), r5));
        assert(r5 =~= Seq::<Seq<char>>::empty());
        assert(spec_parse_attrs(tokens, pattern) == Some(r));
    } else {
        lemma_ptype_token_facts(r.path_type);
        let tokens = seq![t1, t2, t3, t4, t5, t6];
        assert(kind_decodes(AttrKind::Act, tokens[0]));
        assert(first_kind_idx(tokens, AttrKind::Act) == 0);
        let r1 = tokens.remove(0);
        assert(extract_kind(tokens, AttrKind::Act) == (Some(t1), r1));
        assert(r1 =~= seq![t2, t3, t4, t5, t6]);
        assert(kind_decodes(AttrKind::Date, r1[0]));
        assert(first_kind_idx(r1, AttrKind::Date) == 0);
        let r2 = r1.remove(0);
        assert(extract_kind(r1, AttrKind::Date) == (Some(t2), r2));
        assert(r2 =~= seq![t3, t4, t5, t6]);
        assert(kind_decodes(AttrKind::Thr, r2[0]));
        assert(first_kind_idx(r2, AttrKind::Thr) == 0);
        let r3 = r2.remove(0);
        assert(extract_kind(r2, AttrKind::Thr) == (Some(t3), r3));
        assert(r3 =~= seq![t4, t5, t6]);
        assert(kind_decodes(AttrKind::Prio, r3[0]));
        assert(first_kind_idx(r3, AttrKind::Prio) == 0);
        let r4 = r3.remove(0);
        assert(extract_kind(r3, AttrKind::Prio) == (Some(t4), r4));
        assert(r4 =~= seq![t5, t6]);
        assert(kind_decodes(AttrKind::Ptype, r4[0]));
        assert(first_kind_idx(r4, AttrKind::Ptype) == 0);
        let r5 = r4.remove(0);
        assert(extract_kind(r4, AttrKind::Ptype) == (Some(t5), r5));
        assert(r5 =~= seq![t6]);
        assert(kind_decodes(AttrKind::Case, r5[0]));
        assert(first_kind_idx(r5, AttrKind::Case) == 0);
        let r6 = r5.remove(0);
        assert(extract_kind(r5, AttrKind::Case) == (Some(t6), r6));
        assert(r6 =~= Seq::<Seq<char>>::empty());
        assert(spec_parse_attrs(tokens, pattern) == Some(r));
    }
}

/// Parsing the canonical line of a well-formed rule recovers the rule,
/// attribute for attribute. The pattern must carry no surrounding whitespace
/// (parsing trims it away) and no `]` before its final character (parsing
/// splits the line at the last eligible `]`).
#[verifier::rlimit(100)]
#[verifier::spinoff_prover]
pub proof fn lemma_parse_serialize_roundtrip(r: RuleV)
    requires
        wf_rule(r),
        trim_spec(r.path) == r.path,
        forall|i: int| 0 <= i < r.path.len() - 1 ==> r.path[i] != ']',
    ensures
        spec_parse(spec_serialize(r)) == Some(r),
{
    let path = r.path;
    if is_default_except_action(r) {
        lemma_roundtrip_abbrev(r);
    } else {
        let ab = attrs_body(r);
        lemma_action_token_facts(r.action);
        lemma_trim_space_head(path);
        let line = spec_serialize(r);
        assert(ab.len() >= 1);
        lemma_split_serialized_line(ab, path);
        assert(trim_spec(seq![' '] + path) == path);
        lemma_full_attr_tokens(r);
        lemma_full_extract(r, path);
        assert(spec_parse(line) == Some(r));
    }
}


/// A line that does not begin with `[` never parses.
pub proof fn lemma_parse_needs_bracket(line: Seq<char>)
    requires
        line.len() == 0 || line[0] != '[',
    ensures
        spec_parse(line) is None,
{
}

/// A token that a kind does not recognize survives that kind's extraction.
proof fn lemma_unmatched_token_stays(tokens: Seq<Seq<char>>, t: Seq<char>, k: AttrKind)
    requires
        tokens.contains(t),
        !kind_decodes(k, t),
    ensures
        extract_kind(tokens, k).1.contains(t),
{
    let i0 = choose|i: int| 0 <= i < tokens.len() && tokens[i] == t;
    lemma_first_kind_idx(tokens, k);
    let f = first_kind_idx(tokens, k);
    if 0 <= f < tokens.len() {
        assert(kind_decodes(k, tokens[f]));
        assert(f != i0);
        let rest = tokens.remove(f);
        if i0 < f {
            assert(rest[i0] == t);
        } else {
            assert(rest[i0 - 1] == t);
        }
        assert(rest.contains(t));
    }
}

/// An attribute block holding a token that no kind recognizes never parses:
/// the token survives every extraction and is left over at the end.
pub proof fn lemma_unknown_token_fails(tokens: Seq<Seq<char>>, pattern: Seq<char>, t: Seq<char>)
    requires
        tokens.contains(t),
        action_of_token(t) is None,
        date_of_token(t) is None,
        thread_of_token(t) is None,
        prio_of_token(t) is None,
        ptype_of_token(t) is None,
        case_of_token(t) is None,
    ensures
        spec_parse_attrs(tokens, pattern) is None,
{
    let r1 = extract_kind(tokens, AttrKind::Act).1;
    lemma_unmatched_token_stays(tokens, t, AttrKind::Act);
    let r2 = extract_kind(r1, AttrKind::Date).1;
    lemma_unmatched_token_stays(r1, t, AttrKind::Date);
    let r3 = extract_kind(r2, AttrKind::Thr).1;
    lemma_unmatched_token_stays(r2, t, AttrKind::Thr);
    let r4 = extract_kind(r3, AttrKind::Prio).1;
    lemma_unmatched_token_stays(r3, t, AttrKind::Prio);
    let r5 = extract_kind(r4, AttrKind::Ptype).1;
    lemma_unmatched_token_stays(r4, t, AttrKind::Ptype);
    let r6 = extract_kind(r5, AttrKind::Case).1;
    lemma_unmatched_token_stays(r5, t, AttrKind::Case);
    assert(r6.len() > 0);
}

/// An explicit `Priority=` token whose value lies outside 1 through 5 matches
/// no attribute kind at all, so a line carrying one never parses.
pub proof fn lemma_priority_out_of_range_fails(line: Seq<char>, t: Seq<char>)
    requires
        spec_split_line(line) matches Some(cap) && split_char_spec(cap.0, ',').map_values(
            |x: Seq<char>| trim_spec(x),
        ).contains(t),
        is_prefix("Priority="@, t),
        prio_of_token(t) is None,
    ensures
        spec_parse(line) is None,
{
    reveal_strlit("Priority=");
    assert("Priority="@.len() == 9);
    assert("Priority="@[0] == 'P');
    assert("Priority="@[1] == 'r');
    assert(t.subrange(0, 9)[0] == t[0]);
    assert(t.subrange(0, 9)[1] == t[1]);
    assert(t[0] == 'P' && t[1] == 'r');
    reveal_strlit("Sync");
    reveal_strlit("Ignore");
    reveal_strlit("Junk");
    reveal_strlit("Sync=Sync");
    reveal_strlit("Sync=Ignore");
    reveal_strlit("Sync=Junk");
    assert("Sync"@[0] == 'S' && "Ignore"@[0] == 'I' && "Junk"@[0] == 'J');
    assert("Sync=Sync"@[0] == 'S' && "Sync=Ignore"@[0] == 'S' && "Sync=Junk"@[0] == 'S');
    assert(action_of_token(t) is None);
    reveal_strlit("Date=Remote");
    reveal_strlit("Date=Local");
    assert("Date=Remote"@[0] == 'D' && "Date=Local"@[0] == 'D');
    assert(date_of_token(t) is None);
    reveal_strlit("Thread=Normal");
    reveal_strlit("Thread=Priority");
    assert("Thread=Normal"@[0] == 'T' && "Thread=Priority"@[0] == 'T');
    assert(thread_of_token(t) is None);
    reveal_strlit("File");
    reveal_strlit("Directory");
    reveal_strlit("Unspecified");
    reveal_strlit("PathType=File");
    reveal_strlit("PathType=Directory");
    reveal_strlit("PathType=Unspecified");
    assert("File"@[0] == 'F' && "Directory"@[0] == 'D' && "Unspecified"@[0] == 'U');
    assert("PathType=File"@[1] == 'a');
    assert("PathType=Directory"@[1] == 'a');
    assert("PathType=Unspecified"@[1] == 'a');
    assert(ptype_of_token(t) is None);
    reveal_strlit("True");
    reveal_strlit("False");
    reveal_strlit("CaseSensitive=True");
    reveal_strlit("CaseSensitive=False");
    assert("True"@[0] == 'T' && "False"@[0] == 'F');
    assert("CaseSensitive=True"@[0] == 'C' && "CaseSensitive=False"@[0] == 'C');
    assert(case_of_token(t) is None);
    let cap = spec_split_line(line).unwrap();
    let pattern = trim_spec(cap.1);
    if pattern.len() != 0 {
        lemma_unknown_token_fails(
            split_char_spec(cap.0, ',').map_values(|x: Seq<char>| trim_spec(x)),
            pattern,
            t,
        );
    }
}


/// Every rule that parses satisfies the data-model invariants: its priority
/// lies in the documented range and its pattern is non-empty.
pub proof fn lemma_parsed_rules_are_wf(line: Seq<char>)
    ensures
        spec_parse(line) matches Some(rv) ==> wf_rule(rv),
{
    if spec_parse(line) is Some {
        let cap = spec_split_line(line).unwrap();
        let pattern = trim_spec(cap.1);
        let tokens = split_char_spec(cap.0, ',').map_values(|t: Seq<char>| trim_spec(t));
        let r3 = extract_kind(
            extract_kind(extract_kind(tokens, AttrKind::Act).1, AttrKind::Date).1,
            AttrKind::Thr,
        ).1;
        lemma_first_kind_idx(r3, AttrKind::Prio);
        let rv = spec_parse(line).unwrap();
        assert(1 <= rv.prio <= 5);
        assert(rv.path.len() > 0);
    }
}

} // verus!

