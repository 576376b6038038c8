//! Position-based scanning of character sequences, shared by the line parsers.
use vstd::prelude::*;

verus! {

/// The characters that separate tokens: the Unicode `White_Space` set, as
/// `char::is_whitespace` and `str::split_whitespace` use it.
pub open spec fn is_ws(c: char) -> bool {
    ('\u{9}' <= c && c <= '\u{d}') || c == ' ' || c == '\u{85}' || c == '\u{a0}' || c == '\u{1680}'
        || ('\u{2000}' <= c && c <= '\u{200a}') || c == '\u{2028}' || c == '\u{2029}' || c == '\u{202f}'
        || c == '\u{205f}' || c == '\u{3000}'
}

/// The first position in `[i, end)` that holds `c`, or `end` when there is none.
pub open spec fn find_before(s: Seq<char>, c: char, i: int, end: int) -> int
    decreases end - i,
{
    if i >= end {
        end
    } else if s[i] == c {
        i
    } else {
        find_before(s, c, i + 1, end)
    }
}

/// The first position at or after `i` that is not whitespace, or the length.
pub open spec fn skip_ws(s: Seq<char>, i: int) -> int
    decreases s.len() - i,
{
    if i >= s.len() {
        s.len() as int
    } else if is_ws(s[i]) {
        skip_ws(s, i + 1)
    } else {
        i
    }
}

/// The first whitespace position at or after `i`, or the length.
pub open spec fn token_end(s: Seq<char>, i: int) -> int
    decreases s.len() - i,
{
    if i >= s.len() {
        s.len() as int
    } else if is_ws(s[i]) {
        i
    } else {
        token_end(s, i + 1)
    }
}

/// `find_before` stays in `[i, end]` and stops on the character it looks for.
pub proof fn lemma_find_before_range(s: Seq<char>, c: char, i: int, end: int)
    requires
        i <= end,
    ensures
        i <= find_before(s, c, i, end) <= end,
        find_before(s, c, i, end) < end ==> s[find_before(s, c, i, end)] == c,
    decreases end - i,
{
    if i < end && s[i] != c {
        lemma_find_before_range(s, c, i + 1, end);
    }
}

/// `skip_ws` moves forward within the sequence and stops on a non-space.
pub proof fn lemma_skip_ws_range(s: Seq<char>, i: int)
    requires
        i <= s.len(),
    ensures
        i <= skip_ws(s, i) <= s.len(),
        skip_ws(s, i) < s.len() ==> !is_ws(s[skip_ws(s, i)]),
    decreases s.len() - i,
{
    if i < s.len() && is_ws(s[i]) {
        lemma_skip_ws_range(s, i + 1);
    }
}

/// `token_end` moves forward within the sequence, past a token's first character.
pub proof fn lemma_token_end_range(s: Seq<char>, i: int)
    requires
        i <= s.len(),
    ensures
        i <= token_end(s, i) <= s.len(),
        i < s.len() && !is_ws(s[i]) ==> i < token_end(s, i),
    decreases s.len() - i,
{
    if i < s.len() && !is_ws(s[i]) {
        lemma_token_end_range(s, i + 1);
    }
}

/// The characters of `s`, for indexing in constant time.
pub fn chars_of(s: &str) -> (r: Vec<char>)
    ensures
        r@ == s@,
{
    let n = s.unicode_len();
    let mut v: Vec<char> = Vec::new();
    let mut i: usize = 0;
    while i < n
        invariant
            n == s@.len(),
            i <= n,
            v@ == s@.subrange(0, i as int),
        decreases n - i,
    {
        v.push(s.get_char(i));
        i = i + 1;
        assert(v@ =~= s@.subrange(0, i as int));
    }
    assert(v@ =~= s@);
    v
}

/// Exec counterpart of `find_before`.
pub fn find_char(s: &Vec<char>, c: char, i: usize, end: usize) -> (r: usize)
    requires
        i <= end <= s@.len(),
    ensures
        r == find_before(s@, c, i as int, end as int),
        i <= r <= end,
{
    let mut k = i;
    while k < end
        invariant
            i <= k <= end <= s@.len(),
            find_before(s@, c, i as int, end as int) == find_before(s@, c, k as int, end as int),
        decreases end - k,
    {
        if s[k] == c {
            return k;
        }
        k = k + 1;
    }
    k
}

/// Exec counterpart of `is_ws`.
pub fn is_ws_char(c: char) -> (r: bool)
    ensures
        r == is_ws(c),
{
    ('\u{9}' <= c && c <= '\u{d}') || c == ' ' || c == '\u{85}' || c == '\u{a0}' || c == '\u{1680}'
        || ('\u{2000}' <= c && c <= '\u{200a}') || c == '\u{2028}' || c == '\u{2029}' || c == '\u{202f}'
        || c == '\u{205f}' || c == '\u{3000}'
}

/// Exec counterpart of `skip_ws`.
pub fn skip_whitespace(s: &Vec<char>, i: usize) -> (r: usize)
    requires
        i <= s@.len(),
    ensures
        r == skip_ws(s@, i as int),
        i <= r <= s@.len(),
{
    let mut k = i;
    while k < s.len()
        invariant
            i <= k <= s@.len(),
            skip_ws(s@, i as int) == skip_ws(s@, k as int),
        decreases s@.len() - k,
    {
        if !is_ws_char(s[k]) {
            return k;
        }
        k = k + 1;
    }
    k
}

/// Exec counterpart of `token_end`.
pub fn end_of_token(s: &Vec<char>, i: usize) -> (r: usize)
    requires
        i <= s@.len(),
    ensures
        r == token_end(s@, i as int),
        i <= r <= s@.len(),
{
    let mut k = i;
    while k < s.len()
        invariant
            i <= k <= s@.len(),
            token_end(s@, i as int) == token_end(s@, k as int),
        decreases s@.len() - k,
    {
        if is_ws_char(s[k]) {
            return k;
        }
        k = k + 1;
    }
    k
}

/// Whether two strings hold the same characters.
pub fn str_eq(a: &str, b: &str) -> (r: bool)
    ensures
        r == (a@ == b@),
{
    let n = a.unicode_len();
    if n != b.unicode_len() {
        return false;
    }
    let mut i: usize = 0;
    while i < n
        invariant
            n == a@.len() == b@.len(),
            i <= n,
            forall|k: int| 0 <= k < i ==> a@[k] == b@[k],
        decreases n - i,
    {
        if a.get_char(i) != b.get_char(i) {
            return false;
        }
        i = i + 1;
    }
    assert(a@ =~= b@);
    true
}

/// A new string holding the characters `s[from..to]` of `text`.
pub fn substring(text: &str, from: usize, to: usize) -> (r: String)
    requires
        from <= to <= text@.len(),
    ensures
        r@ == text@.subrange(from as int, to as int),
{
    text.substring_char(from, to).to_owned()
}

} // verus!

verus! {

/// `find_before` gives the first position that holds `c`.
pub proof fn lemma_find_before_at(s: Seq<char>, c: char, i: int, j: int, end: int)
    requires
        i <= j <= end,
        j < end ==> s[j] == c,
        forall|q: int| i <= q < j ==> s[q] != c,
    ensures
        find_before(s, c, i, end) == j,
    decreases j - i,
{
    if i < j {
        lemma_find_before_at(s, c, i + 1, j, end);
    }
}

} // verus!
