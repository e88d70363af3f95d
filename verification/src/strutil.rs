//! Small verified helpers over strings and character sequences: equality and
//! prefix tests, whitespace trimming, character searches, and comma splitting.

use vstd::prelude::*;

verus! {

/// Character-for-character equality of two string slices.
pub fn str_eq(a: &str, b: &str) -> (r: bool)
    ensures
        r == (a@ == b@),
{
    let alen = a.unicode_len();
    let blen = b.unicode_len();
    if alen != blen {
        assert(a@ != b@) by {
            assert(a@.len() != b@.len());
        }
        return false;
    }
    let mut i: usize = 0;
    while i < alen
        invariant
            alen == a@.len(),
            alen == b@.len(),
            0 <= i <= alen,
            forall|k: int| 0 <= k < i ==> a@[k] == b@[k],
        decreases alen - i,
    {
        if a.get_char(i) != b.get_char(i) {
            return false;
        }
        i += 1;
    }
    assert(a@ =~= b@);
    true
}

/// Whether `p` is a prefix of `s`.
pub open spec fn is_prefix(p: Seq<char>, s: Seq<char>) -> bool {
    p.len() <= s.len() && s.subrange(0, p.len() as int) == p
}

/// Decides `is_prefix(p@, s@)`.
pub fn starts_with(s: &str, p: &str) -> (r: bool)
    ensures
        r == is_prefix(p@, s@),
{
    let plen = p.unicode_len();
    let slen = s.unicode_len();
    if plen > slen {
        return false;
    }
    let mut i: usize = 0;
    while i < plen
        invariant
            plen == p@.len(),
            slen == s@.len(),
            plen <= slen,
            0 <= i <= plen,
            forall|k: int| 0 <= k < i ==> s@[k] == p@[k],
        decreases plen - i,
    {
        if s.get_char(i) != p.get_char(i) {
            assert(s@.subrange(0, plen as int)[i as int] != p@[i as int]);
            return false;
        }
        i += 1;
    }
    assert(s@.subrange(0, plen as int) =~= p@);
    true
}

/// The whitespace characters stripped from rule text: the Unicode
/// `White_Space` set.
pub open spec fn is_space_char(c: char) -> bool {
    (c as u32 >= 0x9 && c as u32 <= 0xd) || c == ' ' || c == '\u{0085}' || c == '\u{00a0}'
        || c == '\u{1680}' || (c as u32 >= 0x2000 && c as u32 <= 0x200a) || c == '\u{2028}'
        || c == '\u{2029}' || c == '\u{202f}' || c == '\u{205f}' || c == '\u{3000}'
}

/// Decides `is_space_char(c)`.
pub fn is_space(c: char) -> (r: bool)
    ensures
        r == is_space_char(c),
{
    let n = c as u32;
    (n >= 0x9 && n <= 0xd) || c == ' ' || c == '\u{0085}' || c == '\u{00a0}' || c == '\u{1680}'
        || (n >= 0x2000 && n <= 0x200a) || c == '\u{2028}' || c == '\u{2029}' || c == '\u{202f}'
        || c == '\u{205f}' || c == '\u{3000}'
}

/// `s` without its leading whitespace.
pub open spec fn trim_start_spec(s: Seq<char>) -> Seq<char>
    decreases s.len(),
{
    if s.len() > 0 && is_space_char(s[0]) {
        trim_start_spec(s.drop_first())
    } else {
        s
    }
}

/// `s` without its trailing whitespace.
pub open spec fn trim_end_spec(s: Seq<char>) -> Seq<char>
    decreases s.len(),
{
    if s.len() > 0 && is_space_char(s.last()) {
        trim_end_spec(s.drop_last())
    } else {
        s
    }
}

/// `s` without leading and trailing whitespace.
pub open spec fn trim_spec(s: Seq<char>) -> Seq<char> {
    trim_end_spec(trim_start_spec(s))
}

proof fn lemma_trim_start_skip(s: Seq<char>, i: int)
    requires
        0 <= i <= s.len(),
        forall|k: int| 0 <= k < i ==> is_space_char(s[k]),
    ensures
        trim_start_spec(s) == trim_start_spec(s.skip(i)),
    decreases i,
{
    if i > 0 {
        assert(s.skip(0) =~= s);
        assert(is_space_char(s[0]));
        assert(s.drop_first() =~= s.skip(1));
        lemma_trim_start_skip(s.skip(1), i - 1);
        assert(s.skip(1).skip(i - 1) =~= s.skip(i));
    } else {
        assert(s.skip(0) =~= s);
    }
}

proof fn lemma_trim_end_take(s: Seq<char>, j: int)
    requires
        0 <= j <= s.len(),
        forall|k: int| j <= k < s.len() ==> is_space_char(s[k]),
    ensures
        trim_end_spec(s) == trim_end_spec(s.take(j)),
    decreases s.len() - j,
{
    if j < s.len() {
        assert(is_space_char(s.last()));
        assert(s.drop_last() =~= s.take(s.len() - 1));
        lemma_trim_end_take(s.take(s.len() - 1), j);
        assert(s.take(s.len() - 1).take(j) =~= s.take(j));
    } else {
        assert(s.take(s.len() as int) =~= s);
    }
}

/// `s` with surrounding whitespace removed.
pub fn trim<'a>(s: &'a str) -> (r: &'a str)
    ensures
        r@ == trim_spec(s@),
{
    let len = s.unicode_len();
    let mut i: usize = 0;
    while i < len && is_space(s.get_char(i))
        invariant
            len == s@.len(),
            0 <= i <= len,
            forall|k: int| 0 <= k < i ==> is_space_char(s@[k]),
        decreases len - i,
    {
        i += 1;
    }
    proof {
        lemma_trim_start_skip(s@, i as int);
        if i < len {
            assert(!is_space_char(s@.skip(i as int)[0]));
        }
        assert(trim_start_spec(s@) == s@.skip(i as int));
    }
    let mut j: usize = len;
    while j > i && is_space(s.get_char(j - 1))
        invariant
            len == s@.len(),
            0 <= i <= j <= len,
            trim_start_spec(s@) == s@.skip(i as int),
            forall|k: int| j <= k < len ==> is_space_char(s@[k]),
        decreases j,
    {
        j -= 1;
    }
    proof {
        let suf = s@.skip(i as int);
        lemma_trim_end_take(suf, j - i);
        if j > i {
            assert(suf.take(j - i).last() == s@[j - 1]);
            assert(!is_space_char(suf.take(j - i).last()));
        }
        assert(trim_end_spec(suf) == suf.take(j - i));
        assert(suf.take(j - i) =~= s@.subrange(i as int, j as int));
    }
    s.substring_char(i, j)
}

/// Trimming a string that neither starts nor ends with whitespace keeps it
/// unchanged.
pub proof fn lemma_trim_clean(s: Seq<char>)
    requires
        s.len() > 0,
        !is_space_char(s[0]),
        !is_space_char(s.last()),
    ensures
        trim_spec(s) == s,
{
    assert(trim_start_spec(s) == s);
    assert(trim_end_spec(s) == s);
}

/// Trimming absorbs a single leading space.
pub proof fn lemma_trim_space_head(s: Seq<char>)
    ensures
        trim_spec(seq![' '] + s) == trim_spec(s),
{
    let t = seq![' '] + s;
    assert(t.len() > 0 && t[0] == ' ');
    assert(t.drop_first() =~= s);
    assert(trim_start_spec(t) == trim_start_spec(s));
}

/// Index of the first occurrence of `c` in `s`, or `s.len()` when absent.
pub open spec fn find_char_spec(s: Seq<char>, c: char) -> int
    decreases s.len(),
{
    if s.len() == 0 {
        0
    } else if s[0] == c {
        0
    } else {
        1 + find_char_spec(s.drop_first(), c)
    }
}

/// `find_char_spec` names the first occurrence: everything before it differs
/// from `c`, and it is in bounds exactly when `c` occurs at all.
pub proof fn lemma_find_char(s: Seq<char>, c: char)
    ensures
        0 <= find_char_spec(s, c) <= s.len(),
        find_char_spec(s, c) < s.len() ==> s[find_char_spec(s, c)] == c,
        forall|k: int| 0 <= k < find_char_spec(s, c) ==> s[k] != c,
    decreases s.len(),
{
    if s.len() > 0 && s[0] != c {
        lemma_find_char(s.drop_first(), c);
        assert forall|k: int| 0 <= k < find_char_spec(s, c) implies s[k] != c by {
            if k > 0 {
                assert(s.drop_first()[k - 1] == s[k]);
                assert(k - 1 < find_char_spec(s.drop_first(), c));
            }
        }
    }
}

/// `s` split at every occurrence of `c`; the separators are dropped and the
/// pieces keep their order. An input without `c` yields one piece.
pub open spec fn split_char_spec(s: Seq<char>, c: char) -> Seq<Seq<char>>
    decreases s.len(),
{
    let i = find_char_spec(s, c);
    if 0 <= i < s.len() {
        seq![s.subrange(0, i)] + split_char_spec(s.subrange(i + 1, s.len() as int), c)
    } else {
        seq![s]
    }
}

/// Index of the last occurrence of `c` in `s`, or -1 when `s` has none.
pub open spec fn last_idx_of(s: Seq<char>, c: char) -> int
    decreases s.len(),
{
    if s.len() == 0 {
        -1
    } else if s.last() == c {
        s.len() - 1
    } else {
        last_idx_of(s.drop_last(), c)
    }
}

/// `last_idx_of` names the last occurrence: everything after it differs from
/// `c`, and it is -1 exactly when `c` does not occur.
pub proof fn lemma_last_idx_of(s: Seq<char>, c: char)
    ensures
        -1 <= last_idx_of(s, c) < s.len(),
        last_idx_of(s, c) >= 0 ==> s[last_idx_of(s, c)] == c,
        forall|k: int| last_idx_of(s, c) < k < s.len() ==> s[k] != c,
    decreases s.len(),
{
    if s.len() > 0 && s.last() != c {
        lemma_last_idx_of(s.drop_last(), c);
        assert forall|k: int| last_idx_of(s, c) < k < s.len() implies s[k] != c by {
            if k < s.len() - 1 {
                assert(s.drop_last()[k] == s[k]);
            }
        }
    }
}

/// Finds the last occurrence of `c` in `s`, if any.
pub fn rfind_char(s: &str, c: char) -> (r: Option<usize>)
    ensures
        match r {
            Some(i) => i == last_idx_of(s@, c),
            None => last_idx_of(s@, c) == -1,
        },
{
    let len = s.unicode_len();
    let mut j: usize = len;
    while j > 0
        invariant
            len == s@.len(),
            0 <= j <= len,
            forall|k: int| j <= k < len ==> s@[k] != c,
        decreases j,
    {
        if s.get_char(j - 1) == c {
            proof {
                lemma_last_idx_of(s@, c);
                if last_idx_of(s@, c) > j - 1 {
                    assert(s@[last_idx_of(s@, c)] == c);
                }
                if last_idx_of(s@, c) < j - 1 {
                    assert(false);
                }
            }
            return Some(j - 1);
        }
        j -= 1;
    }
    proof {
        lemma_last_idx_of(s@, c);
        if last_idx_of(s@, c) >= 0 {
            assert(s@[last_idx_of(s@, c)] == c);
        }
    }
    None
}

/// Whether some element of `v` reads as the string `s`.
pub fn contains_str(v: &Vec<String>, s: &str) -> (r: bool)
    ensures
        r == v.deep_view().contains(s@),
{
    let mut i: usize = 0;
    while i < v.len()
        invariant
            0 <= i <= v@.len(),
            forall|k: int| 0 <= k < i ==> v.deep_view()[k] != s@,
        decreases v@.len() - i,
    {
        assert(v.deep_view()[i as int] == v@[i as int]@);
        if str_eq(v[i].as_str(), s) {
            assert(v.deep_view().contains(s@));
            return true;
        }
        i += 1;
    }
    proof {
        if v.deep_view().contains(s@) {
            let w = choose|k: int| 0 <= k < v.deep_view().len() && v.deep_view()[k] == s@;
            assert(v.deep_view()[w] != s@);
        }
    }
    false
}

/// Splitting a comma-free string yields the string as its only piece.
pub proof fn lemma_split_single(x: Seq<char>)
    requires
        forall|k: int| 0 <= k < x.len() ==> x[k] != ',',
    ensures
        split_char_spec(x, ',') == seq![x],
{
    lemma_find_char(x, ',');
    let f = find_char_spec(x, ',');
    if 0 <= f < x.len() {
        assert(x[f] == ',');
        assert(false);
    }
}

/// Splitting `x + "," + y` where `x` is comma-free peels `x` off as the first
/// piece and splits the rest.
pub proof fn lemma_split_step(x: Seq<char>, y: Seq<char>)
    requires
        forall|k: int| 0 <= k < x.len() ==> x[k] != ',',
    ensures
        split_char_spec(x + seq![','] + y, ',') == seq![x] + split_char_spec(y, ','),
{
    let s = x + seq![','] + y;
    lemma_find_char(s, ',');
    let f = find_char_spec(s, ',');
    assert(s[x.len() as int] == ',');
    if f < x.len() {
        assert(s[f] == ',');
        assert(s[f] == x[f]);
        assert(false);
    }
    if f > x.len() {
        assert(s[x.len() as int] != ',');
        assert(false);
    }
    assert(f == x.len());
    assert(0 <= f < s.len());
    assert(s.subrange(0, f) =~= x);
    assert(s.subrange(f + 1, s.len() as int) =~= y);
}

/// Searches `s` for `c` at or after `from`.
fn find_char_from(s: &str, c: char, from: usize) -> (j: usize)
    requires
        from <= s@.len(),
    ensures
        from <= j <= s@.len(),
        j - from == find_char_spec(s@.skip(from as int), c),
{
    let len = s.unicode_len();
    let mut j: usize = from;
    while j < len && s.get_char(j) != c
        invariant
            len == s@.len(),
            from <= j <= len,
            forall|k: int| from <= k < j ==> s@[k] != c,
        decreases len - j,
    {
        j += 1;
    }
    proof {
        let suf = s@.skip(from as int);
        lemma_find_char(suf, c);
        let f = find_char_spec(suf, c);
        if f < j - from {
            assert(s@[from + f] != c);
            assert(suf[f] == s@[from + f]);
            assert(false);
        }
        if f > j - from {
            assert(j < len);
            assert(suf[j - from] == c);
        }
    }
    j
}

/// Splits `s` at commas and trims each piece.
pub fn split_trim_commas(s: &str) -> (v: Vec<String>)
    ensures
        v.deep_view() == split_char_spec(s@, ',').map_values(|t: Seq<char>| trim_spec(t)),
{
    let len = s.unicode_len();
    let mut v: Vec<String> = Vec::new();
    let mut start: usize = 0;
    let ghost tr = |t: Seq<char>| trim_spec(t);
    let ghost goal = split_char_spec(s@, ',').map_values(tr);
    proof {
        assert(s@.skip(0) =~= s@);
        assert(v.deep_view() =~= Seq::<Seq<char>>::empty());
        assert(goal =~= v.deep_view() + split_char_spec(s@.skip(0), ',').map_values(tr));
    }
    loop
        invariant
            len == s@.len(),
            0 <= start <= len,
            goal == split_char_spec(s@, ',').map_values(tr),
            tr == (|t: Seq<char>| trim_spec(t)),
            goal == v.deep_view() + split_char_spec(s@.skip(start as int), ',').map_values(tr),
        decreases len - start + 1,
    {
        let ghost old_v = v.deep_view();
        let ghost suf = s@.skip(start as int);
        let j = find_char_from(s, ',', start);
        let piece = trim(s.substring_char(start, j));
        let owned = piece.to_owned();
        v.push(owned);
        proof {
            assert(v.deep_view() =~= old_v.push(trim_spec(s@.subrange(start as int, j as int))));
            lemma_find_char(suf, ',');
            assert(suf.subrange(0, j - start) =~= s@.subrange(start as int, j as int));
        }
        if j == len {
            proof {
                assert(find_char_spec(suf, ',') == suf.len());
                assert(split_char_spec(suf, ',') == seq![suf]);
                assert(suf =~= s@.subrange(start as int, j as int));
                assert(split_char_spec(suf, ',').map_values(tr) =~= seq![
                    trim_spec(s@.subrange(start as int, j as int)),
                ]);
                assert(goal =~= v.deep_view());
            }
            return v;
        }
        proof {
            let i = find_char_spec(suf, ',');
            assert(i == j - start);
            assert(0 <= i < suf.len());
            let rest = suf.subrange(i + 1, suf.len() as int);
            assert(rest =~= s@.skip(j + 1));
            assert(split_char_spec(suf, ',') == seq![suf.subrange(0, i)] + split_char_spec(
                rest,
                ',',
            ));
            assert(split_char_spec(suf, ',').map_values(tr) =~= seq![
                trim_spec(s@.subrange(start as int, j as int)),
            ] + split_char_spec(s@.skip(j + 1), ',').map_values(tr));
            assert(goal =~= v.deep_view() + split_char_spec(s@.skip(j + 1), ',').map_values(tr));
        }
        start = j + 1;
    }
}

} // verus!
