//! Character-level string utilities: conversion between `&str` and character
//! vectors, substring search, whitespace trimming, integer parsing and
//! rendering, and the case-folding boundary.

use vstd::prelude::*;
use vstd::string::{StrSliceExecFns, StringExecFns};

verus! {

/// What `str::to_lowercase` returns for a given character sequence.
pub uninterp spec fn lower_of(s: Seq<char>) -> Seq<char>;

/// Relies on str::to_lowercase: the result depends on the input characters
/// alone (the Unicode lowercase mapping).
#[verifier::external_body]
pub(crate) fn lowercase(s: &str) -> (r: String)
    ensures
        r@ == lower_of(s@),
{
    s.to_lowercase()
}

/// Relies on String::push: appends the given character to the end of the
/// string.
pub assume_specification[ String::push ](s: &mut String, ch: char)
    ensures
        final(s)@ == old(s)@.push(ch),
;

/// The characters of `s`, in order.
pub fn chars_vec(s: &str) -> (r: Vec<char>)
    ensures
        r@ == s@,
{
    let n = s.unicode_len();
    let mut v: Vec<char> = Vec::new();
    let mut i: usize = 0;
    while i < n
        invariant
            i <= n,
            n == s@.len(),
            v@ == s@.subrange(0, i as int),
        decreases n - i,
    {
        v.push(s.get_char(i));
        i += 1;
        proof {
            assert(v@ =~= s@.subrange(0, i as int));
        }
    }
    proof {
        assert(v@ =~= s@);
    }
    v
}

/// A `String` holding exactly the characters of `v`.
pub fn string_from_chars(v: &Vec<char>) -> (r: String)
    ensures
        r@ == v@,
{
    let mut s = String::new();
    let mut i: usize = 0;
    while i < v.len()
        invariant
            i <= v@.len(),
            s@ == v@.subrange(0, i as int),
        decreases v@.len() - i,
    {
        s.push(v[i]);
        i += 1;
        proof {
            assert(s@ =~= v@.subrange(0, i as int));
        }
    }
    proof {
        assert(s@ =~= v@);
    }
    s
}

/// Character-for-character equality of two string slices.
pub fn str_eq(a: &str, b: &str) -> (r: bool)
    ensures
        r == (a@ == b@),
{
    let sa = String::from_str(a);
    let sb = String::from_str(b);
    sa == sb
}

/// Character-for-character equality of a string slice and an owned string.
pub fn str_eq_string(a: &str, b: &String) -> (r: bool)
    ensures
        r == (a@ == b@),
{
    let sa = String::from_str(a);
    sa == *b
}

/// The pattern `pat` occurs in `s` starting at position `i`.
pub open spec fn match_at(s: Seq<char>, pat: Seq<char>, i: int) -> bool {
    &&& 0 <= i
    &&& i + pat.len() <= s.len()
    &&& s.subrange(i, i + pat.len() as int) == pat
}

/// Position of the first occurrence of `pat` in `s` at or after `from`.
pub open spec fn first_match_from(s: Seq<char>, pat: Seq<char>, from: int) -> Option<int>
    decreases s.len() - from + 1,
{
    if from < 0 || from + pat.len() > s.len() {
        None
    } else if s.subrange(from, from + pat.len() as int) == pat {
        Some(from)
    } else {
        first_match_from(s, pat, from + 1)
    }
}

/// Position of the first occurrence of the character `c` in `s` at or after
/// `from`.
pub open spec fn first_char_from(s: Seq<char>, c: char, from: int) -> Option<int>
    decreases s.len() - from,
{
    if from < 0 || from >= s.len() {
        None
    } else if s[from] == c {
        Some(from)
    } else {
        first_char_from(s, c, from + 1)
    }
}

/// A found first match lies in bounds and matches the pattern there.
pub proof fn lemma_first_match_props(s: Seq<char>, pat: Seq<char>, from: int)
    requires
        0 <= from,
    ensures
        match first_match_from(s, pat, from) {
            Some(i) => from <= i && i + pat.len() <= s.len() && s.subrange(
                i,
                i + pat.len() as int,
            ) == pat,
            None => true,
        },
    decreases s.len() - from + 1,
{
    if !(from + pat.len() > s.len()) && s.subrange(from, from + pat.len() as int) != pat {
        lemma_first_match_props(s, pat, from + 1);
    }
}

/// A found first character occurrence lies in bounds and holds `c`.
pub proof fn lemma_first_char_props(s: Seq<char>, c: char, from: int)
    requires
        0 <= from,
    ensures
        match first_char_from(s, c, from) {
            Some(i) => from <= i < s.len() && s[i] == c,
            None => true,
        },
    decreases s.len() - from,
{
    if from < s.len() && s[from] != c {
        lemma_first_char_props(s, c, from + 1);
    }
}

/// A found last character occurrence lies in bounds and holds `c`.
pub proof fn lemma_last_char_props(s: Seq<char>, c: char, below: int)
    ensures
        match last_char_below(s, c, below) {
            Some(i) => 0 <= i < below && i < s.len() && s[i] == c,
            None => true,
        },
    decreases below,
{
    if 0 < below <= s.len() && s[below - 1] != c {
        lemma_last_char_props(s, c, below - 1);
    }
}

/// Position of the last occurrence of the character `c` in `s` below `below`.
pub open spec fn last_char_below(s: Seq<char>, c: char, below: int) -> Option<int>
    decreases below,
{
    if below <= 0 || below > s.len() {
        None
    } else if s[below - 1] == c {
        Some(below - 1)
    } else {
        last_char_below(s, c, below - 1)
    }
}

/// Whether `pat` occurs in `hay` starting at position `i`.
pub fn eq_at(hay: &Vec<char>, pat: &Vec<char>, i: usize) -> (r: bool)
    requires
        i + pat@.len() <= hay@.len(),
    ensures
        r == match_at(hay@, pat@, i as int),
{
    let hlen = hay.len();
    let mut j: usize = 0;
    while j < pat.len()
        invariant
            j <= pat@.len(),
            i + pat@.len() <= hay@.len(),
            hlen == hay@.len(),
            forall|k: int| 0 <= k < j ==> hay@[i + k] == pat@[k],
        decreases pat@.len() - j,
    {
        if hay[i + j] != pat[j] {
            proof {
                assert(hay@.subrange(i as int, i + pat@.len() as int)[j as int] != pat@[j as int]);
            }
            return false;
        }
        j += 1;
    }
    proof {
        assert(hay@.subrange(i as int, i + pat@.len() as int) =~= pat@);
    }
    true
}

/// Position of the first occurrence of `pat` in `hay`, if any.
pub fn find_pat(hay: &Vec<char>, pat: &Vec<char>) -> (r: Option<usize>)
    requires
        pat@.len() >= 1,
    ensures
        match r {
            Some(i) => first_match_from(hay@, pat@, 0) == Some(i as int),
            None => first_match_from(hay@, pat@, 0) is None,
        },
{
    if pat.len() > hay.len() {
        return None;
    }
    let hlen = hay.len();
    let last: usize = hay.len() - pat.len();
    let mut i: usize = 0;
    while i <= last
        invariant
            hlen == hay@.len(),
            pat@.len() >= 1,
            pat@.len() <= hay@.len(),
            last == hay@.len() - pat@.len(),
            i <= last + 1,
            first_match_from(hay@, pat@, 0) == first_match_from(hay@, pat@, i as int),
        decreases last + 1 - i,
    {
        if eq_at(hay, pat, i) {
            return Some(i);
        }
        i += 1;
    }
    None
}

/// Position of the first occurrence of the character `c` in `hay`, if any.
pub fn find_char(hay: &Vec<char>, c: char) -> (r: Option<usize>)
    ensures
        match r {
            Some(i) => first_char_from(hay@, c, 0) == Some(i as int),
            None => first_char_from(hay@, c, 0) is None,
        },
{
    let n = hay.len();
    let mut i: usize = 0;
    while i < n
        invariant
            i <= n,
            n == hay@.len(),
            first_char_from(hay@, c, 0) == first_char_from(hay@, c, i as int),
        decreases n - i,
    {
        if hay[i] == c {
            return Some(i);
        }
        i += 1;
    }
    None
}

/// Position of the last occurrence of the character `c` in `hay`, if any.
pub fn rfind_char(hay: &Vec<char>, c: char) -> (r: Option<usize>)
    ensures
        match r {
            Some(i) => last_char_below(hay@, c, hay@.len() as int) == Some(i as int),
            None => last_char_below(hay@, c, hay@.len() as int) is None,
        },
{
    let mut i: usize = hay.len();
    while i > 0
        invariant
            i <= hay@.len(),
            last_char_below(hay@, c, hay@.len() as int) == last_char_below(hay@, c, i as int),
        decreases i,
    {
        i -= 1;
        if hay[i] == c {
            return Some(i);
        }
    }
    None
}

/// The characters of `hay` from `from` (inclusive) to `to` (exclusive).
pub fn sub_chars(hay: &Vec<char>, from: usize, to: usize) -> (r: Vec<char>)
    requires
        from <= to <= hay@.len(),
    ensures
        r@ == hay@.subrange(from as int, to as int),
{
    let mut v: Vec<char> = Vec::new();
    let mut i: usize = from;
    while i < to
        invariant
            from <= i <= to <= hay@.len(),
            v@ == hay@.subrange(from as int, i as int),
        decreases to - i,
    {
        v.push(hay[i]);
        i += 1;
        proof {
            assert(v@ =~= hay@.subrange(from as int, i as int));
        }
    }
    v
}

/// The Unicode white-space characters, as `char::is_whitespace` accepts them.
pub open spec fn is_space(c: char) -> bool {
    ||| c == ' '
    ||| c == '\t'
    ||| c == '\n'
    ||| c == '\u{0b}'
    ||| c == '\u{0c}'
    ||| c == '\r'
    ||| c == '\u{85}'
    ||| c == '\u{a0}'
    ||| c == '\u{1680}'
    ||| ('\u{2000}' <= c && c <= '\u{200a}')
    ||| c == '\u{2028}'
    ||| c == '\u{2029}'
    ||| c == '\u{202f}'
    ||| c == '\u{205f}'
    ||| c == '\u{3000}'
}

/// Whitespace test matching `char::is_whitespace`.
pub fn is_space_char(c: char) -> (r: bool)
    ensures
        r == is_space(c),
{
    c == ' ' || c == '\t' || c == '\n' || c == '\u{0b}' || c == '\u{0c}' || c == '\r'
        || c == '\u{85}' || c == '\u{a0}' || c == '\u{1680}' || ('\u{2000}' <= c && c
        <= '\u{200a}') || c == '\u{2028}' || c == '\u{2029}' || c == '\u{202f}' || c == '\u{205f}'
        || c == '\u{3000}'
}

/// Number of leading white-space characters of `s`.
pub open spec fn leading_spaces(s: Seq<char>) -> int
    decreases s.len(),
{
    if s.len() == 0 || !is_space(s[0]) {
        0
    } else {
        1 + leading_spaces(s.drop_first())
    }
}

/// Number of trailing white-space characters of `s`.
pub open spec fn trailing_spaces(s: Seq<char>) -> int
    decreases s.len(),
{
    if s.len() == 0 || !is_space(s.last()) {
        0
    } else {
        1 + trailing_spaces(s.drop_last())
    }
}

/// `s` with leading and trailing white space removed, as `str::trim` leaves
/// it.
pub open spec fn trimmed(s: Seq<char>) -> Seq<char> {
    if leading_spaces(s) + trailing_spaces(s) >= s.len() {
        Seq::empty()
    } else {
        s.subrange(leading_spaces(s), s.len() - trailing_spaces(s))
    }
}

/// Remove leading and trailing white space.
pub fn trim_chars(hay: &Vec<char>) -> (r: Vec<char>)
    ensures
        r@ == trimmed(hay@),
{
    let n = hay.len();
    let a = skip_spaces(hay, 0);
    proof {
        assert(hay@.subrange(0, n as int) =~= hay@);
        lemma_leading_spaces_bound(hay@);
        lemma_trailing_nonneg(hay@);
    }
    if a == n {
        return Vec::new();
    }
    let mut e: usize = n;
    while e > a && is_space_char(hay[e - 1])
        invariant
            a < e <= n,
            n == hay@.len(),
            a == leading_spaces(hay@),
            a < n,
            !is_space(hay@[a as int]),
            trailing_spaces(hay@) == (n - e) + trailing_spaces(hay@.subrange(0, e as int)),
        decreases e,
    {
        proof {
            let cur = hay@.subrange(0, e as int);
            assert(cur.last() == hay@[e - 1]);
            assert(cur.drop_last() =~= hay@.subrange(0, e - 1));
        }
        e -= 1;
    }
    proof {
        let cur = hay@.subrange(0, e as int);
        assert(cur.last() == hay@[e - 1]);
        assert(trailing_spaces(cur) == 0);
    }
    sub_chars(hay, a, e)
}

proof fn lemma_trailing_nonneg(s: Seq<char>)
    ensures
        trailing_spaces(s) >= 0,
    decreases s.len(),
{
    if s.len() > 0 && is_space(s.last()) {
        lemma_trailing_nonneg(s.drop_last());
    }
}

proof fn lemma_leading_spaces_bound(s: Seq<char>)
    ensures
        0 <= leading_spaces(s) <= s.len(),
        forall|j: int| 0 <= j < leading_spaces(s) ==> is_space(s[j]),
        leading_spaces(s) < s.len() ==> !is_space(s[leading_spaces(s)]),
    decreases s.len(),
{
    if s.len() > 0 && is_space(s[0]) {
        lemma_leading_spaces_bound(s.drop_first());
        assert forall|j: int| 0 <= j < leading_spaces(s) implies is_space(s[j]) by {
            if j > 0 {
                assert(is_space(s.drop_first()[j - 1]));
            }
        }
    }
}

/// Index of the first non-white-space character of `hay` at or after `from`,
/// that is: `from` plus the leading white space of the tail.
pub fn skip_spaces(hay: &Vec<char>, from: usize) -> (r: usize)
    requires
        from <= hay@.len(),
    ensures
        from <= r <= hay@.len(),
        r - from == leading_spaces(hay@.subrange(from as int, hay@.len() as int)),
{
    let ghost tail = hay@.subrange(from as int, hay@.len() as int);
    let hlen = hay.len();
    let mut i: usize = from;
    while i < hay.len() && is_space_char(hay[i])
        invariant
            from <= i <= hay@.len(),
            hlen == hay@.len(),
            tail == hay@.subrange(from as int, hay@.len() as int),
            leading_spaces(tail) == (i - from) + leading_spaces(
                hay@.subrange(i as int, hay@.len() as int),
            ),
        decreases hay@.len() - i,
    {
        proof {
            let cur = hay@.subrange(i as int, hay@.len() as int);
            assert(cur[0] == hay@[i as int]);
            assert(cur.drop_first() =~= hay@.subrange(i + 1, hay@.len() as int));
        }
        i += 1;
    }
    proof {
        let cur = hay@.subrange(i as int, hay@.len() as int);
        if i < hay@.len() {
            assert(cur[0] == hay@[i as int]);
        }
        assert(leading_spaces(cur) == 0);
    }
    i
}

} // verus!
