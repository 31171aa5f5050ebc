//! Verified text primitives: substring search, trimming, case folding and
//! decimal parsing over character sequences.
//!
//! Exec code works on `Vec<char>`; every function is specified against a
//! spec-level mirror on `Seq<char>`.

use vstd::prelude::*;

verus! {

/// The whitespace characters the log grammar treats as separators.
pub open spec fn is_ws(c: char) -> bool {
    c == ' ' || c == '\t' || c == '\r' || c == '\n'
}

/// Executable test for [`is_ws`].
pub fn is_ws_char(c: char) -> (r: bool)
    ensures
        r == is_ws(c),
{
    c == ' ' || c == '\t' || c == '\r' || c == '\n'
}

/// True when `pat` occurs in `s` starting at position `i`.
pub open spec fn is_match_at(s: Seq<char>, pat: Seq<char>, i: int) -> bool {
    0 <= i && i + pat.len() <= s.len() && s.subrange(i, i + pat.len()) == pat
}

/// Position of the first occurrence of `pat` in `s` at or after `from`.
pub open spec fn find_sub_from(s: Seq<char>, pat: Seq<char>, from: int) -> Option<int>
    decreases s.len() - from,
{
    if from < 0 {
        find_sub_from(s, pat, 0)
    } else if from + pat.len() > s.len() {
        None
    } else if is_match_at(s, pat, from) {
        Some(from)
    } else if from >= s.len() {
        None
    } else {
        find_sub_from(s, pat, from + 1)
    }
}

/// Position of the last occurrence of `pat` in `s` at or before `from`.
pub open spec fn rfind_sub_from(s: Seq<char>, pat: Seq<char>, from: int) -> Option<int>
    decreases from + 1,
{
    if from < 0 {
        None
    } else if is_match_at(s, pat, from) {
        Some(from)
    } else {
        rfind_sub_from(s, pat, from - 1)
    }
}

/// Position of the last occurrence of `pat` in `s`.
pub open spec fn rfind_sub(s: Seq<char>, pat: Seq<char>) -> Option<int> {
    rfind_sub_from(s, pat, s.len() - pat.len())
}

/// True when `pat` occurs somewhere in `s`.
pub open spec fn has_sub(s: Seq<char>, pat: Seq<char>) -> bool {
    find_sub_from(s, pat, 0) is Some
}

/// True when `s` starts with `pat`.
pub open spec fn starts_with(s: Seq<char>, pat: Seq<char>) -> bool {
    is_match_at(s, pat, 0)
}

/// What a successful forward search means: a match at the found position,
/// and none earlier.
pub proof fn lemma_find_sub_some(s: Seq<char>, pat: Seq<char>, from: int, i: int)
    requires
        find_sub_from(s, pat, from) == Some(i),
    ensures
        is_match_at(s, pat, i),
        i >= from,
        forall|j: int| from <= j < i ==> !is_match_at(s, pat, j),
    decreases s.len() - from,
{
    if from < 0 {
        lemma_find_sub_some(s, pat, 0, i);
    } else if from + pat.len() > s.len() {
    } else if is_match_at(s, pat, from) {
    } else if from >= s.len() {
    } else {
        lemma_find_sub_some(s, pat, from + 1, i);
    }
}

/// What a failed forward search means: no match anywhere at or after `from`.
pub proof fn lemma_find_sub_none(s: Seq<char>, pat: Seq<char>, from: int)
    requires
        find_sub_from(s, pat, from) is None,
    ensures
        forall|j: int| j >= from ==> !is_match_at(s, pat, j),
    decreases s.len() - from,
{
    if from < 0 {
        lemma_find_sub_none(s, pat, 0);
    } else if from + pat.len() > s.len() {
        assert forall|j: int| j >= from implies !is_match_at(s, pat, j) by {}
    } else if is_match_at(s, pat, from) {
    } else if from >= s.len() {
        assert(s.subrange(from, from + pat.len()) =~= pat);
    } else {
        lemma_find_sub_none(s, pat, from + 1);
    }
}

/// What a successful backward search means: a match at the found position,
/// and none later (up to the search start).
pub proof fn lemma_rfind_sub_some(s: Seq<char>, pat: Seq<char>, from: int, i: int)
    requires
        rfind_sub_from(s, pat, from) == Some(i),
    ensures
        is_match_at(s, pat, i),
        i <= from,
        forall|j: int| i < j <= from ==> !is_match_at(s, pat, j),
    decreases from + 1,
{
    if from < 0 {
    } else if is_match_at(s, pat, from) {
    } else {
        lemma_rfind_sub_some(s, pat, from - 1, i);
    }
}

/// What a failed backward search means: no match at or before `from`.
pub proof fn lemma_rfind_sub_none(s: Seq<char>, pat: Seq<char>, from: int)
    requires
        rfind_sub_from(s, pat, from) is None,
    ensures
        forall|j: int| j <= from ==> !is_match_at(s, pat, j),
    decreases from + 1,
{
    if from < 0 {
    } else if is_match_at(s, pat, from) {
    } else {
        lemma_rfind_sub_none(s, pat, from - 1);
    }
}

/// Executable test for [`is_match_at`].
pub fn match_at(v: &Vec<char>, pat: &Vec<char>, i: usize) -> (r: bool)
    ensures
        r == is_match_at(v@, pat@, i as int),
{
    if i > v.len() || pat.len() > v.len() - i {
        return false;
    }
    let mut j: usize = 0;
    while j < pat.len()
        invariant
            i + pat.len() <= v.len(),
            j <= pat.len(),
            forall|k: int| 0 <= k < j ==> v@[i + k] == pat@[k],
        decreases pat.len() - j,
    {
        if v[i + j] != pat[j] {
            assert(v@.subrange(i as int, i + pat.len())[j as int] != pat@[j as int]);
            return false;
        }
        j += 1;
    }
    assert(v@.subrange(i as int, i + pat.len()) =~= pat@);
    true
}

/// Executable search for the first occurrence of `pat` at or after `from`.
pub fn find_sub_at(v: &Vec<char>, pat: &Vec<char>, from: usize) -> (r: Option<usize>)
    ensures
        match r {
            Some(i) => find_sub_from(v@, pat@, from as int) == Some(i as int),
            None => find_sub_from(v@, pat@, from as int) is None,
        },
{
    let n = v.len();
    let m = pat.len();
    if m > n || from > n - m {
        return None;
    }
    if m == 0 {
        proof {
            assert(v@.subrange(from as int, from as int) =~= pat@);
        }
        return Some(from);
    }
    let mut i = from;
    loop
        invariant
            1 <= m <= n,
            n == v.len(),
            m == pat.len(),
            from <= i <= n - m + 1,
            find_sub_from(v@, pat@, from as int) == find_sub_from(v@, pat@, i as int),
        decreases n - i,
    {
        if i > n - m {
            return None;
        }
        if match_at(v, pat, i) {
            return Some(i);
        }
        i += 1;
    }
}

/// Executable search for the first occurrence of `pat` in `v`.
pub fn find_sub(v: &Vec<char>, pat: &Vec<char>) -> (r: Option<usize>)
    ensures
        match r {
            Some(i) => find_sub_from(v@, pat@, 0) == Some(i as int),
            None => find_sub_from(v@, pat@, 0) is None,
        },
{
    find_sub_at(v, pat, 0)
}

/// Executable test for [`has_sub`].
pub fn contains_sub(v: &Vec<char>, pat: &Vec<char>) -> (r: bool)
    ensures
        r == has_sub(v@, pat@),
{
    find_sub_at(v, pat, 0).is_some()
}

/// Executable search for the last occurrence of `pat` in `v`.
pub fn rfind_sub_in(v: &Vec<char>, pat: &Vec<char>) -> (r: Option<usize>)
    ensures
        match r {
            Some(i) => rfind_sub(v@, pat@) == Some(i as int),
            None => rfind_sub(v@, pat@) is None,
        },
{
    let n = v.len();
    let m = pat.len();
    if m > n {
        return None;
    }
    let mut i = n - m;
    loop
        invariant
            m <= n,
            n == v.len(),
            m == pat.len(),
            0 <= i <= n - m,
            rfind_sub(v@, pat@) == rfind_sub_from(v@, pat@, i as int),
        decreases i,
    {
        if match_at(v, pat, i) {
            return Some(i);
        }
        if i == 0 {
            proof {
                assert(rfind_sub_from(v@, pat@, -1) is None);
            }
            return None;
        }
        i -= 1;
    }
}

/// Executable test for [`starts_with`].
pub fn starts_with_pat(v: &Vec<char>, pat: &Vec<char>) -> (r: bool)
    ensures
        r == starts_with(v@, pat@),
{
    match_at(v, pat, 0)
}

/// Copy of the characters of `v` from `from` (inclusive) to `to` (exclusive).
pub fn subrange_copy(v: &Vec<char>, from: usize, to: usize) -> (r: Vec<char>)
    requires
        from <= to <= v@.len(),
    ensures
        r@ == v@.subrange(from as int, to as int),
{
    let mut r: Vec<char> = Vec::new();
    let mut i = from;
    while i < to
        invariant
            from <= i <= to <= v@.len(),
            r@ == v@.subrange(from as int, i as int),
        decreases to - i,
    {
        r.push(v[i]);
        assert(v@.subrange(from as int, i + 1 as int) =~= v@.subrange(from as int, i as int).push(
            v@[i as int],
        ));
        i += 1;
    }
    r
}

/// Append a copy of `src` onto `dst`.
pub fn append_chars(dst: &mut Vec<char>, src: &Vec<char>)
    ensures
        final(dst)@ == old(dst)@ + src@,
{
    let mut i: usize = 0;
    while i < src.len()
        invariant
            i <= src.len(),
            dst@ == old(dst)@ + src@.subrange(0, i as int),
        decreases src.len() - i,
    {
        dst.push(src[i]);
        assert(src@.subrange(0, i + 1 as int) =~= src@.subrange(0, i as int).push(src@[i as int]));
        i += 1;
    }
    assert(src@.subrange(0, src@.len() as int) =~= src@);
}

/// Position of the first whitespace character at or after `i`.
pub open spec fn find_ws_from(s: Seq<char>, i: int) -> Option<int>
    decreases s.len() - i,
{
    if i < 0 || i >= s.len() {
        None
    } else if is_ws(s[i]) {
        Some(i)
    } else {
        find_ws_from(s, i + 1)
    }
}

/// Executable search for the first whitespace character.
pub fn find_ws(v: &Vec<char>) -> (r: Option<usize>)
    ensures
        match r {
            Some(i) => find_ws_from(v@, 0) == Some(i as int) && i < v@.len(),
            None => find_ws_from(v@, 0) is None,
        },
{
    let mut i: usize = 0;
    while i < v.len()
        invariant
            i <= v.len(),
            find_ws_from(v@, 0) == find_ws_from(v@, i as int),
        decreases v.len() - i,
    {
        if is_ws_char(v[i]) {
            return Some(i);
        }
        i += 1;
    }
    None
}

/// Executable character-sequence equality.
pub fn seq_eq(v: &Vec<char>, w: &Vec<char>) -> (r: bool)
    ensures
        r == (v@ == w@),
{
    if v.len() != w.len() {
        return false;
    }
    let r = match_at(v, w, 0);
    proof {
        if r {
            assert(v@.subrange(0, v@.len() as int) =~= v@);
        } else {
            assert(v@.subrange(0, w@.len() as int) =~= v@);
        }
    }
    r
}

/// `s` with leading whitespace removed.
pub open spec fn trim_start_spec(s: Seq<char>) -> Seq<char>
    decreases s.len(),
{
    if s.len() > 0 && is_ws(s[0]) {
        trim_start_spec(s.drop_first())
    } else {
        s
    }
}

/// `s` with trailing whitespace removed.
pub open spec fn trim_end_spec(s: Seq<char>) -> Seq<char>
    decreases s.len(),
{
    if s.len() > 0 && is_ws(s.last()) {
        trim_end_spec(s.drop_last())
    } else {
        s
    }
}

/// `s` with leading and trailing whitespace removed.
pub open spec fn trim_spec(s: Seq<char>) -> Seq<char> {
    trim_end_spec(trim_start_spec(s))
}

/// Executable trim, specified by [`trim_spec`].
pub fn trim_chars(v: &Vec<char>) -> (r: Vec<char>)
    ensures
        r@ == trim_spec(v@),
{
    let n = v.len();
    proof {
        assert(v@.subrange(0, n as int) =~= v@);
    }
    let mut a: usize = 0;
    while a < n && is_ws_char(v[a])
        invariant
            a <= n,
            n == v.len(),
            trim_start_spec(v@) == trim_start_spec(v@.subrange(a as int, n as int)),
        decreases n - a,
    {
        assert(v@.subrange(a as int, n as int).drop_first() =~= v@.subrange(
            a + 1 as int,
            n as int,
        ));
        a += 1;
    }
    assert(trim_start_spec(v@) == v@.subrange(a as int, n as int));
    let mut b: usize = n;
    while b > a && is_ws_char(v[b - 1])
        invariant
            a <= b <= n,
            n == v.len(),
            trim_start_spec(v@) == v@.subrange(a as int, n as int),
            trim_end_spec(v@.subrange(a as int, n as int)) == trim_end_spec(
                v@.subrange(a as int, b as int),
            ),
        decreases b,
    {
        assert(v@.subrange(a as int, b as int).drop_last() =~= v@.subrange(
            a as int,
            b - 1 as int,
        ));
        b -= 1;
    }
    assert(trim_end_spec(v@.subrange(a as int, b as int)) == v@.subrange(a as int, b as int));
    subrange_copy(v, a, b)
}

/// ASCII lower-case image of one character.
pub open spec fn lower_char(c: char) -> char {
    if 65 <= c as u32 && c as u32 <= 90 {
        ((c as u32 + 32) as u32) as char
    } else {
        c
    }
}

/// ASCII lower-case image of a character sequence.
pub open spec fn lower_seq(s: Seq<char>) -> Seq<char> {
    Seq::new(s.len(), |i: int| lower_char(s[i]))
}

/// Executable ASCII lower-casing, specified by [`lower_seq`].
pub fn lower_chars(v: &Vec<char>) -> (r: Vec<char>)
    ensures
        r@ == lower_seq(v@),
{
    let mut r: Vec<char> = Vec::new();
    let mut i: usize = 0;
    while i < v.len()
        invariant
            i <= v.len(),
            r@ == lower_seq(v@).subrange(0, i as int),
        decreases v.len() - i,
    {
        let c = v[i];
        let u = c as u32;
        let lc: char = if 65 <= u && u <= 90 {
            ((u + 32) as u8) as char
        } else {
            c
        };
        assert(lc == lower_char(v@[i as int]));
        r.push(lc);
        assert(lower_seq(v@).subrange(0, i + 1 as int) =~= lower_seq(v@).subrange(
            0,
            i as int,
        ).push(lower_char(v@[i as int])));
        i += 1;
    }
    assert(lower_seq(v@).subrange(0, v@.len() as int) =~= lower_seq(v@));
    r
}

/// The characters of a string slice, in order.
pub fn str_chars(s: &str) -> (v: Vec<char>)
    ensures
        v@ == s@,
{
    let n = s.unicode_len();
    let mut v: Vec<char> = Vec::new();
    let mut i: usize = 0;
    while i < n
        invariant
            i <= n,
            n == s@.len(),
            v@ == s@.subrange(0, i as int),
        decreases n - i,
    {
        v.push(s.get_char(i));
        assert(s@.subrange(0, i + 1 as int) =~= s@.subrange(0, i as int).push(s@[i as int]));
        i += 1;
    }
    assert(s@.subrange(0, s@.len() as int) =~= s@);
    v
}

/// Relies on `core::iter::Iterator::collect` via `String::from_iter`:
/// collecting chars yields the string with exactly those chars.
#[verifier::external_body]
pub fn chars_to_string(v: &Vec<char>) -> (s: String)
    ensures
        s@ == v@,
{
    v.iter().collect()
}

} // verus!
