//! Verified text utilities for the wire protocol: whitespace trimming,
//! tokenisation, ASCII case-insensitive comparison, substring search and
//! joining with a separator.

use vstd::prelude::*;
use vstd::string::*;

verus! {

/// Whitespace as the protocol understands it.
pub open spec fn is_space(c: char) -> bool {
    c == ' ' || c == '\t' || c == '\n' || c == '\r'
}

fn is_space_exec(c: char) -> (r: bool)
    ensures
        r == is_space(c),
{
    c == ' ' || c == '\t' || c == '\n' || c == '\r'
}

/// The code point of `c`, with ASCII upper-case letters folded to lower case.
pub open spec fn lower_code(c: char) -> int {
    if 65 <= c as u32 && c as u32 <= 90 {
        c as u32 + 32
    } else {
        (c as u32) as int
    }
}

fn lower_code_exec(c: char) -> (r: u32)
    ensures
        r as int == lower_code(c),
{
    let u: u32 = c as u32;
    if 65 <= u && u <= 90 {
        u + 32
    } else {
        u
    }
}

/// ASCII case-insensitive equality of two characters.
pub open spec fn ci_eq_char(a: char, b: char) -> bool {
    lower_code(a) == lower_code(b)
}

/// `s` begins with `p`, comparing characters ASCII case-insensitively.
pub open spec fn ci_starts_with(s: Seq<char>, p: Seq<char>) -> bool {
    &&& p.len() <= s.len()
    &&& forall|i: int| 0 <= i < p.len() ==> ci_eq_char(#[trigger] s[i], p[i])
}

/// ASCII case-insensitive equality of two character sequences.
pub open spec fn ci_eq_seq(a: Seq<char>, b: Seq<char>) -> bool {
    &&& a.len() == b.len()
    &&& forall|i: int| 0 <= i < a.len() ==> ci_eq_char(#[trigger] a[i], b[i])
}

/// `s` begins with `p`, compared exactly.
pub open spec fn starts_with_seq(s: Seq<char>, p: Seq<char>) -> bool {
    p.len() <= s.len() && s.subrange(0, p.len() as int) == p
}

/// Case-insensitive (ASCII) test that `s` begins with `p`.
pub fn str_ci_starts_with(s: &str, p: &str) -> (r: bool)
    ensures
        r == ci_starts_with(s@, p@),
{
    let n: usize = p.unicode_len();
    let m: usize = s.unicode_len();
    if n > m {
        return false;
    }
    let mut i: usize = 0;
    while i < n
        invariant
            i <= n,
            n == p@.len(),
            m == s@.len(),
            n <= m,
            forall|j: int| 0 <= j < i ==> ci_eq_char(#[trigger] s@[j], p@[j]),
        decreases n - i,
    {
        if lower_code_exec(s.get_char(i)) != lower_code_exec(p.get_char(i)) {
            assert(!ci_eq_char(s@[i as int], p@[i as int]));
            return false;
        }
        i += 1;
    }
    true
}

/// Case-insensitive (ASCII) equality of two strings.
pub fn str_ci_eq(s: &str, p: &str) -> (r: bool)
    ensures
        r == ci_eq_seq(s@, p@),
{
    let n: usize = p.unicode_len();
    let m: usize = s.unicode_len();
    if n != m {
        return false;
    }
    let mut i: usize = 0;
    while i < n
        invariant
            i <= n,
            n == p@.len(),
            m == s@.len(),
            n == m,
            forall|j: int| 0 <= j < i ==> ci_eq_char(#[trigger] s@[j], p@[j]),
        decreases n - i,
    {
        if lower_code_exec(s.get_char(i)) != lower_code_exec(p.get_char(i)) {
            assert(!ci_eq_char(s@[i as int], p@[i as int]));
            return false;
        }
        i += 1;
    }
    true
}

/// Exact equality of two strings.
pub fn str_eq(s: &str, p: &str) -> (r: bool)
    ensures
        r == (s@ == p@),
{
    let n: usize = p.unicode_len();
    let m: usize = s.unicode_len();
    if n != m {
        return false;
    }
    let mut i: usize = 0;
    while i < n
        invariant
            i <= n,
            n == p@.len(),
            m == s@.len(),
            n == m,
            forall|j: int| 0 <= j < i ==> #[trigger] s@[j] == p@[j],
        decreases n - i,
    {
        if s.get_char(i) != p.get_char(i) {
            return false;
        }
        i += 1;
    }
    proof {
        assert(s@ =~= p@);
    }
    true
}

/// Exact test that `s` begins with `p`.
pub fn str_starts_with(s: &str, p: &str) -> (r: bool)
    ensures
        r == starts_with_seq(s@, p@),
{
    let n: usize = p.unicode_len();
    let m: usize = s.unicode_len();
    if n > m {
        return false;
    }
    let mut i: usize = 0;
    while i < n
        invariant
            i <= n,
            n == p@.len(),
            m == s@.len(),
            n <= m,
            forall|j: int| 0 <= j < i ==> #[trigger] s@[j] == p@[j],
        decreases n - i,
    {
        if s.get_char(i) != p.get_char(i) {
            assert(s@.subrange(0, n as int)[i as int] != p@[i as int]);
            return false;
        }
        i += 1;
    }
    proof {
        assert(s@.subrange(0, n as int) =~= p@);
    }
    true
}

/// How many characters at the front of `s` are whitespace.
pub open spec fn leading_spaces(s: Seq<char>) -> int
    decreases s.len(),
{
    if s.len() == 0 || !is_space(s[0]) {
        0
    } else {
        1 + leading_spaces(s.drop_first())
    }
}

/// How many characters at the back of `s` are whitespace.
pub open spec fn trailing_spaces(s: Seq<char>) -> int
    decreases s.len(),
{
    if s.len() == 0 || !is_space(s[s.len() - 1]) {
        0
    } else {
        1 + trailing_spaces(s.drop_last())
    }
}

/// `s` without surrounding whitespace.
pub open spec fn trim_spec(s: Seq<char>) -> Seq<char> {
    let t = s.skip(leading_spaces(s));
    t.take(t.len() - trailing_spaces(t))
}

proof fn lemma_leading_spaces_is(s: Seq<char>, k: int)
    requires
        0 <= k <= s.len(),
        forall|i: int| 0 <= i < k ==> is_space(#[trigger] s[i]),
        k < s.len() ==> !is_space(s[k]),
    ensures
        leading_spaces(s) == k,
    decreases k,
{
    if k == 0 {
    } else {
        assert(is_space(s[0]));
        assert forall|i: int| 0 <= i < k - 1 implies is_space(#[trigger] s.drop_first()[i]) by {
            assert(s.drop_first()[i] == s[i + 1]);
        }
        assert(k - 1 < s.drop_first().len() ==> !is_space(s.drop_first()[k - 1]));
        lemma_leading_spaces_is(s.drop_first(), k - 1);
    }
}

proof fn lemma_trailing_spaces_is(s: Seq<char>, k: int)
    requires
        0 <= k <= s.len(),
        forall|i: int| s.len() - k <= i < s.len() ==> is_space(#[trigger] s[i]),
        k < s.len() ==> !is_space(s[s.len() - 1 - k]),
    ensures
        trailing_spaces(s) == k,
    decreases k,
{
    if k == 0 {
    } else {
        assert(is_space(s[s.len() - 1]));
        assert forall|i: int| s.drop_last().len() - (k - 1) <= i < s.drop_last().len() implies is_space(
            #[trigger] s.drop_last()[i],
        ) by {
            assert(s.drop_last()[i] == s[i]);
        }
        assert(k - 1 < s.drop_last().len() ==> !is_space(s.drop_last()[s.drop_last().len() - 1 - (k
            - 1)]));
        lemma_trailing_spaces_is(s.drop_last(), k - 1);
    }
}

proof fn lemma_leading_spaces_bounds(s: Seq<char>)
    ensures
        0 <= leading_spaces(s) <= s.len(),
        leading_spaces(s) < s.len() ==> !is_space(s[leading_spaces(s)]),
        forall|i: int| 0 <= i < leading_spaces(s) ==> is_space(#[trigger] s[i]),
    decreases s.len(),
{
    if s.len() > 0 && is_space(s[0]) {
        lemma_leading_spaces_bounds(s.drop_first());
        assert forall|i: int| 0 <= i < leading_spaces(s) implies is_space(#[trigger] s[i]) by {
            if i > 0 {
                assert(s.drop_first()[i - 1] == s[i]);
            }
        }
        if leading_spaces(s) < s.len() {
            assert(s.drop_first()[leading_spaces(s) - 1] == s[leading_spaces(s)]);
        }
    }
}

proof fn lemma_trailing_spaces_bounds(s: Seq<char>)
    ensures
        0 <= trailing_spaces(s) <= s.len(),
        trailing_spaces(s) < s.len() ==> !is_space(s[s.len() - 1 - trailing_spaces(s)]),
    decreases s.len(),
{
    if s.len() > 0 && is_space(s[s.len() - 1]) {
        lemma_trailing_spaces_bounds(s.drop_last());
        if trailing_spaces(s) < s.len() {
            assert(s.drop_last()[s.drop_last().len() - 1 - (trailing_spaces(s) - 1)] == s[s.len()
                - 1 - trailing_spaces(s)]);
        }
    }
}

/// A trimmed sequence neither starts nor ends with whitespace.
pub proof fn lemma_trim_edges(s: Seq<char>)
    ensures
        trim_spec(s).len() > 0 ==> !is_space(trim_spec(s)[0]),
        trim_spec(s).len() > 0 ==> !is_space(trim_spec(s)[trim_spec(s).len() - 1]),
{
    lemma_leading_spaces_bounds(s);
    let l = leading_spaces(s);
    let t = s.skip(l);
    lemma_trailing_spaces_bounds(t);
    let r = trailing_spaces(t);
    if trim_spec(s).len() > 0 {
        assert(trim_spec(s)[0] == t[0]);
        assert(t[0] == s[l]);
        assert(trim_spec(s)[trim_spec(s).len() - 1] == t[t.len() - 1 - r]);
    }
}

/// Whitespace characters are exactly those whose folded code is 32, 9, 10
/// or 13; in particular case folding never turns whitespace into anything
/// else or anything else into whitespace.
pub proof fn lemma_space_codes(c: char)
    ensures
        is_space(c) <==> (lower_code(c) == 32 || lower_code(c) == 9 || lower_code(c) == 10
            || lower_code(c) == 13),
{
}

/// `s` with surrounding whitespace removed.
pub fn trim_str<'a>(s: &'a str) -> (r: &'a str)
    ensures
        r@ == trim_spec(s@),
{
    let n: usize = s.unicode_len();
    let mut i: usize = 0;
    while i < n && is_space_exec(s.get_char(i))
        invariant
            i <= n,
            n == s@.len(),
            forall|j: int| 0 <= j < i ==> is_space(#[trigger] s@[j]),
        decreases n - i,
    {
        i += 1;
    }
    let mut j: usize = n;
    while j > i && is_space_exec(s.get_char(j - 1))
        invariant
            i <= j <= n,
            n == s@.len(),
            forall|t: int| j <= t < n ==> is_space(#[trigger] s@[t]),
        decreases j,
    {
        j -= 1;
    }
    let r = s.substring_char(i, j);
    proof {
        lemma_leading_spaces_is(s@, i as int);
        let t = s@.skip(i as int);
        assert forall|p: int| t.len() - (n - j) <= p < t.len() implies is_space(#[trigger] t[p]) by {
            assert(t[p] == s@[p + i]);
        }
        if (n as int - j) < t.len() {
            assert(t[t.len() - 1 - (n - j)] == s@[j - 1]);
            assert(j > i);
            assert(!is_space(s@[j - 1]));
        }
        lemma_trailing_spaces_is(t, n as int - j);
        assert(t.take(t.len() - (n - j)) =~= s@.subrange(i as int, j as int));
    }
    r
}

/// How many characters at the front of `s` equal `q`.
pub open spec fn leading_matches(s: Seq<char>, q: char) -> int
    decreases s.len(),
{
    if s.len() == 0 || s[0] != q {
        0
    } else {
        1 + leading_matches(s.drop_first(), q)
    }
}

/// How many characters at the back of `s` equal `q`.
pub open spec fn trailing_matches(s: Seq<char>, q: char) -> int
    decreases s.len(),
{
    if s.len() == 0 || s[s.len() - 1] != q {
        0
    } else {
        1 + trailing_matches(s.drop_last(), q)
    }
}

/// `s` without any leading or trailing occurrences of `q`.
pub open spec fn trim_char_spec(s: Seq<char>, q: char) -> Seq<char> {
    let t = s.skip(leading_matches(s, q));
    t.take(t.len() - trailing_matches(t, q))
}

proof fn lemma_leading_matches_is(s: Seq<char>, q: char, k: int)
    requires
        0 <= k <= s.len(),
        forall|i: int| 0 <= i < k ==> #[trigger] s[i] == q,
        k < s.len() ==> s[k] != q,
    ensures
        leading_matches(s, q) == k,
    decreases k,
{
    if k == 0 {
    } else {
        assert(s[0] == q);
        assert forall|i: int| 0 <= i < k - 1 implies #[trigger] s.drop_first()[i] == q by {
            assert(s.drop_first()[i] == s[i + 1]);
        }
        assert(k - 1 < s.drop_first().len() ==> s.drop_first()[k - 1] != q);
        lemma_leading_matches_is(s.drop_first(), q, k - 1);
    }
}

proof fn lemma_trailing_matches_is(s: Seq<char>, q: char, k: int)
    requires
        0 <= k <= s.len(),
        forall|i: int| s.len() - k <= i < s.len() ==> #[trigger] s[i] == q,
        k < s.len() ==> s[s.len() - 1 - k] != q,
    ensures
        trailing_matches(s, q) == k,
    decreases k,
{
    if k == 0 {
    } else {
        assert(s[s.len() - 1] == q);
        assert forall|i: int| s.drop_last().len() - (k - 1) <= i < s.drop_last().len() implies #[trigger] s.drop_last()[i]
            == q by {
            assert(s.drop_last()[i] == s[i]);
        }
        assert(k - 1 < s.drop_last().len() ==> s.drop_last()[s.drop_last().len() - 1 - (k - 1)]
            != q);
        lemma_trailing_matches_is(s.drop_last(), q, k - 1);
    }
}

/// `s` with every leading and trailing occurrence of `q` removed.
pub fn trim_matching<'a>(s: &'a str, q: char) -> (r: &'a str)
    ensures
        r@ == trim_char_spec(s@, q),
{
    let n: usize = s.unicode_len();
    let mut i: usize = 0;
    while i < n && s.get_char(i) == q
        invariant
            i <= n,
            n == s@.len(),
            forall|j: int| 0 <= j < i ==> #[trigger] s@[j] == q,
        decreases n - i,
    {
        i += 1;
    }
    let mut j: usize = n;
    while j > i && s.get_char(j - 1) == q
        invariant
            i <= j <= n,
            n == s@.len(),
            forall|t: int| j <= t < n ==> #[trigger] s@[t] == q,
        decreases j,
    {
        j -= 1;
    }
    let r = s.substring_char(i, j);
    proof {
        lemma_leading_matches_is(s@, q, i as int);
        let t = s@.skip(i as int);
        assert forall|p: int| t.len() - (n - j) <= p < t.len() implies #[trigger] t[p] == q by {
            assert(t[p] == s@[p + i]);
        }
        if (n as int - j) < t.len() {
            assert(t[t.len() - 1 - (n - j)] == s@[j - 1]);
            assert(j > i);
        }
        lemma_trailing_matches_is(t, q, n as int - j);
        assert(t.take(t.len() - (n - j)) =~= s@.subrange(i as int, j as int));
    }
    r
}

/// The maximal run of non-whitespace characters at the front of `s`.
pub open spec fn first_token(s: Seq<char>) -> Seq<char>
    decreases s.len(),
{
    if s.len() == 0 || is_space(s[0]) {
        Seq::empty()
    } else {
        seq![s[0]] + first_token(s.drop_first())
    }
}

/// `s` with its leading token removed.
pub open spec fn rest_after_token(s: Seq<char>) -> Seq<char>
    decreases s.len(),
{
    if s.len() == 0 || is_space(s[0]) {
        s
    } else {
        rest_after_token(s.drop_first())
    }
}

proof fn lemma_rest_after_token_len(s: Seq<char>)
    ensures
        rest_after_token(s).len() <= s.len(),
    decreases s.len(),
{
    if s.len() > 0 && !is_space(s[0]) {
        lemma_rest_after_token_len(s.drop_first());
    }
}

/// The whitespace-separated tokens of `s`, in order.
pub open spec fn split_ws(s: Seq<char>) -> Seq<Seq<char>>
    decreases s.len(),
    via split_ws_decreases
{
    if s.len() == 0 {
        Seq::empty()
    } else if is_space(s[0]) {
        split_ws(s.drop_first())
    } else {
        seq![first_token(s)] + split_ws(rest_after_token(s))
    }
}

#[via_fn]
proof fn split_ws_decreases(s: Seq<char>) {
    if s.len() > 0 && !is_space(s[0]) {
        lemma_rest_after_token_len(s.drop_first());
    }
}

/// If the first `k` characters of `s` are non-whitespace and the one after
/// them (if any) is whitespace, they form the leading token.
pub proof fn lemma_token_shape(s: Seq<char>, k: int)
    requires
        0 <= k <= s.len(),
        forall|i: int| 0 <= i < k ==> !is_space(#[trigger] s[i]),
        k < s.len() ==> is_space(s[k]),
    ensures
        first_token(s) == s.take(k),
        rest_after_token(s) == s.skip(k),
    decreases k,
{
    if k == 0 {
        assert(s.take(0) =~= Seq::<char>::empty());
        assert(s.skip(0) =~= s);
    } else {
        assert(!is_space(s[0]));
        assert forall|i: int| 0 <= i < k - 1 implies !is_space(#[trigger] s.drop_first()[i]) by {
            assert(s.drop_first()[i] == s[i + 1]);
        }
        assert(k - 1 < s.drop_first().len() ==> is_space(s.drop_first()[k - 1]));
        lemma_token_shape(s.drop_first(), k - 1);
        assert(seq![s[0]] + s.drop_first().take(k - 1) =~= s.take(k));
        assert(s.drop_first().skip(k - 1) =~= s.skip(k));
    }
}

/// A sequence holding any non-whitespace character has at least one token.
pub proof fn lemma_split_has_token(s: Seq<char>)
    requires
        exists|i: int| 0 <= i < s.len() && !is_space(#[trigger] s[i]),
    ensures
        split_ws(s).len() >= 1,
    decreases s.len(),
{
    let i = choose|i: int| 0 <= i < s.len() && !is_space(#[trigger] s[i]);
    if is_space(s[0]) {
        assert(s.drop_first()[i - 1] == s[i]);
        lemma_split_has_token(s.drop_first());
    }
}

/// Split `s` into its whitespace-separated tokens.
pub fn split_tokens(s: &str) -> (r: Vec<String>)
    ensures
        r.deep_view() == split_ws(s@),
{
    let n: usize = s.unicode_len();
    let mut toks: Vec<String> = Vec::new();
    let mut i: usize = 0;
    proof {
        assert(s@.skip(0) =~= s@);
        assert(toks.deep_view() + split_ws(s@) =~= split_ws(s@));
    }
    while i < n
        invariant
            i <= n,
            n == s@.len(),
            toks.deep_view() + split_ws(s@.skip(i as int)) =~= split_ws(s@),
        decreases n - i,
    {
        if is_space_exec(s.get_char(i)) {
            proof {
                assert(s@.skip(i as int)[0] == s@[i as int]);
                assert(s@.skip(i as int).drop_first() =~= s@.skip(i as int + 1));
            }
            i += 1;
        } else {
            let mut j: usize = i;
            while j < n && !is_space_exec(s.get_char(j))
                invariant
                    i <= j <= n,
                    n == s@.len(),
                    forall|t: int| i <= t < j ==> !is_space(#[trigger] s@[t]),
                decreases n - j,
            {
                j += 1;
            }
            let tok: String = s.substring_char(i, j).to_owned();
            let ghost old_dv = toks.deep_view();
            proof {
                let sub = s@.skip(i as int);
                assert forall|t: int| 0 <= t < j - i implies !is_space(#[trigger] sub[t]) by {
                    assert(sub[t] == s@[t + i]);
                }
                assert((j as int - i) < sub.len() ==> is_space(sub[j - i]));
                lemma_token_shape(sub, j as int - i as int);
                assert(sub.take(j - i) =~= s@.subrange(i as int, j as int));
                assert(sub.skip(j - i) =~= s@.skip(j as int));
                assert(sub[0] == s@[i as int]);
                assert(split_ws(sub) == seq![s@.subrange(i as int, j as int)] + split_ws(
                    s@.skip(j as int),
                ));
            }
            toks.push(tok);
            proof {
                assert(toks.deep_view() =~= old_dv.push(tok@));
                assert(toks.deep_view() + split_ws(s@.skip(j as int)) =~= (old_dv + (seq![
                    s@.subrange(i as int, j as int),
                ] + split_ws(s@.skip(j as int)))));
            }
            i = j;
        }
    }
    proof {
        assert(s@.skip(n as int) =~= Seq::<char>::empty());
        assert(toks.deep_view() + split_ws(s@.skip(n as int)) =~= toks.deep_view());
    }
    toks
}

/// `pat` occurs in `s` at position `i`.
pub open spec fn matches_at(s: Seq<char>, pat: Seq<char>, i: int) -> bool {
    0 <= i && i + pat.len() <= s.len() && s.subrange(i, i + pat.len()) == pat
}

/// `pat` occurs somewhere in `s`.
pub open spec fn contains_seq(s: Seq<char>, pat: Seq<char>) -> bool {
    exists|i: int| matches_at(s, pat, i)
}

/// Position of the first occurrence of `pat` in `s` at or after `from`.
pub open spec fn find_from(s: Seq<char>, pat: Seq<char>, from: int) -> Option<int>
    decreases s.len() - from + 1,
{
    if from < 0 || from + pat.len() > s.len() {
        None
    } else if matches_at(s, pat, from) {
        Some(from)
    } else {
        find_from(s, pat, from + 1)
    }
}

/// What a `find_from` answer means: a found position is a minimal match,
/// and a miss means no match at or after `from`.
pub proof fn lemma_find_from_contains(s: Seq<char>, pat: Seq<char>, from: int)
    requires
        0 <= from,
    ensures
        find_from(s, pat, from) matches Some(i) ==> matches_at(s, pat, i) && from <= i && forall|
            j: int,
        | from <= j < i ==> !matches_at(s, pat, j),
        find_from(s, pat, from) is None ==> forall|j: int| j >= from ==> !matches_at(s, pat, j),
    decreases s.len() - from + 1,
{
    if from + pat.len() > s.len() {
        assert forall|j: int| j >= from implies !matches_at(s, pat, j) by {}
    } else if matches_at(s, pat, from) {
    } else {
        lemma_find_from_contains(s, pat, from + 1);
    }
}

/// First occurrence of `pat` in `s`, if any.
pub fn find_in(s: &str, pat: &str) -> (r: Option<usize>)
    ensures
        match r {
            Some(i) => find_from(s@, pat@, 0) == Some(i as int),
            None => find_from(s@, pat@, 0) is None,
        },
{
    let n: usize = s.unicode_len();
    let m: usize = pat.unicode_len();
    if m > n {
        return None;
    }
    if m == 0 {
        proof {
            assert(s@.subrange(0, 0) =~= pat@);
            assert(matches_at(s@, pat@, 0));
        }
        return Some(0);
    }
    let mut i: usize = 0;
    while i <= n - m
        invariant
            1 <= m <= n,
            i <= n - m + 1,
            n == s@.len(),
            m == pat@.len(),
            find_from(s@, pat@, 0) == find_from(s@, pat@, i as int),
        decreases n - i,
    {
        if str_eq(s.substring_char(i, i + m), pat) {
            proof {
                assert(matches_at(s@, pat@, i as int));
            }
            return Some(i);
        }
        proof {
            assert(find_from(s@, pat@, i as int) == find_from(s@, pat@, i as int + 1));
        }
        i += 1;
    }
    proof {
        assert(find_from(s@, pat@, i as int) is None);
    }
    None
}

/// Whether `pat` occurs anywhere in `s`.
pub fn str_contains(s: &str, pat: &str) -> (r: bool)
    ensures
        r == contains_seq(s@, pat@),
{
    let r = find_in(s, pat);
    proof {
        lemma_find_from_contains(s@, pat@, 0);
        if find_from(s@, pat@, 0) is None {
            assert forall|j: int| !matches_at(s@, pat@, j) by {
                if j >= 0 {
                    assert(!matches_at(s@, pat@, j));
                }
            }
        }
    }
    r.is_some()
}

/// `pat` occurs in `s` at position `i`, compared ASCII case-insensitively.
pub open spec fn ci_matches_at(s: Seq<char>, pat: Seq<char>, i: int) -> bool {
    0 <= i && i + pat.len() <= s.len() && ci_eq_seq(s.subrange(i, i + pat.len()), pat)
}

/// Position of the first ASCII case-insensitive occurrence of `pat` in `s`
/// at or after `from`.
pub open spec fn ci_find_from(s: Seq<char>, pat: Seq<char>, from: int) -> Option<int>
    decreases s.len() - from + 1,
{
    if from < 0 || from + pat.len() > s.len() {
        None
    } else if ci_matches_at(s, pat, from) {
        Some(from)
    } else {
        ci_find_from(s, pat, from + 1)
    }
}

/// A found position is a case-insensitive match, in bounds.
pub proof fn lemma_ci_find_from_some(s: Seq<char>, pat: Seq<char>, from: int)
    requires
        0 <= from,
    ensures
        ci_find_from(s, pat, from) matches Some(i) ==> ci_matches_at(s, pat, i) && from <= i,
    decreases s.len() - from + 1,
{
    if from + pat.len() > s.len() {
    } else if ci_matches_at(s, pat, from) {
    } else {
        lemma_ci_find_from_some(s, pat, from + 1);
    }
}

/// First ASCII case-insensitive occurrence of `pat` in `s`, if any.
pub fn ci_find_in(s: &str, pat: &str) -> (r: Option<usize>)
    ensures
        match r {
            Some(i) => ci_find_from(s@, pat@, 0) == Some(i as int),
            None => ci_find_from(s@, pat@, 0) is None,
        },
{
    let n: usize = s.unicode_len();
    let m: usize = pat.unicode_len();
    if m > n {
        return None;
    }
    if m == 0 {
        proof {
            assert(s@.subrange(0, 0) =~= pat@);
            assert(ci_matches_at(s@, pat@, 0));
        }
        return Some(0);
    }
    let mut i: usize = 0;
    while i <= n - m
        invariant
            1 <= m <= n,
            i <= n - m + 1,
            n == s@.len(),
            m == pat@.len(),
            ci_find_from(s@, pat@, 0) == ci_find_from(s@, pat@, i as int),
        decreases n - i,
    {
        if str_ci_eq(s.substring_char(i, i + m), pat) {
            proof {
                assert(ci_matches_at(s@, pat@, i as int));
            }
            return Some(i);
        }
        proof {
            assert(ci_find_from(s@, pat@, i as int) == ci_find_from(s@, pat@, i as int + 1));
        }
        i += 1;
    }
    proof {
        assert(ci_find_from(s@, pat@, i as int) is None);
    }
    None
}

/// `parts` joined with the separator `sep`.
pub open spec fn join_with(parts: Seq<Seq<char>>, sep: Seq<char>) -> Seq<char>
    decreases parts.len(),
{
    if parts.len() == 0 {
        Seq::empty()
    } else if parts.len() == 1 {
        parts[0]
    } else {
        parts[0] + sep + join_with(parts.drop_first(), sep)
    }
}

/// Joining one more part appends a separator and the part.
pub proof fn lemma_join_push(parts: Seq<Seq<char>>, sep: Seq<char>, x: Seq<char>)
    requires
        parts.len() >= 1,
    ensures
        join_with(parts.push(x), sep) == join_with(parts, sep) + sep + x,
    decreases parts.len(),
{
    if parts.len() == 1 {
        assert(parts.push(x).drop_first() =~= seq![x]);
        assert(parts.push(x)[0] == parts[0]);
        assert(join_with(seq![x], sep) == x);
    } else {
        assert(parts.push(x).drop_first() =~= parts.drop_first().push(x));
        lemma_join_push(parts.drop_first(), sep, x);
        assert(parts.push(x)[0] == parts[0]);
        assert(parts[0] + sep + (join_with(parts.drop_first(), sep) + sep + x) =~= (parts[0] + sep
            + join_with(parts.drop_first(), sep)) + sep + x);
    }
}

/// Join the elements of `v` from position `from` on with separator `sep`.
pub fn join_from(v: &Vec<String>, from: usize, sep: &str) -> (r: String)
    requires
        from <= v@.len(),
    ensures
        r@ == join_with(v.deep_view().skip(from as int), sep@),
{
    let mut acc = String::new();
    if from >= v.len() {
        proof {
            assert(v.deep_view().skip(from as int) =~= Seq::<Seq<char>>::empty());
        }
        return acc;
    }
    acc.append(v[from].as_str());
    proof {
        assert(v.deep_view().subrange(from as int, from + 1) =~= seq![v@[from as int]@]);
    }
    let mut i: usize = from + 1;
    while i < v.len()
        invariant
            from < i <= v@.len(),
            acc@ == join_with(v.deep_view().subrange(from as int, i as int), sep@),
        decreases v@.len() - i,
    {
        acc.append(sep);
        acc.append(v[i].as_str());
        proof {
            let dv = v.deep_view();
            lemma_join_push(dv.subrange(from as int, i as int), sep@, dv[i as int]);
            assert(dv.subrange(from as int, i + 1) =~= dv.subrange(from as int, i as int).push(
                dv[i as int],
            ));
        }
        i += 1;
    }
    proof {
        assert(v.deep_view().subrange(from as int, v.deep_view().len() as int) =~= v.deep_view()
            .skip(from as int));
    }
    acc
}

} // verus!
