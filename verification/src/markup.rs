//! Markup stripping: an isolated, stateless text transform that removes
//! tag spans (`<...>`), rewrites the literal `&nbsp;` sequence to a space,
//! and normalizes all whitespace runs to single spaces.

use vstd::prelude::*;

use crate::text::chars_to_string;
use crate::text::find_sub_at;
use crate::text::find_sub_from;
use crate::text::is_ws;
use crate::text::is_ws_char;
use crate::text::lemma_find_sub_none;
use crate::text::lemma_find_sub_some;
use crate::text::str_chars;

verus! {

/// The text from position `i` on, with tag spans removed. A tag span is a
/// `<`, at least one character other than `>`, and the first following `>`.
pub open spec fn remove_tags_from(s: Seq<char>, i: int) -> Seq<char>
    decreases s.len() - i,
{
    if i < 0 || i >= s.len() {
        Seq::empty()
    } else if s[i] == '<' {
        match find_sub_from(s, seq!['>'], i + 1) {
            Some(k) => if i + 2 <= k < s.len() {
                remove_tags_from(s, k + 1)
            } else {
                seq![s[i]] + remove_tags_from(s, i + 1)
            },
            None => seq![s[i]] + remove_tags_from(s, i + 1),
        }
    } else {
        seq![s[i]] + remove_tags_from(s, i + 1)
    }
}

/// The text with tag spans removed.
pub open spec fn remove_tags(s: Seq<char>) -> Seq<char> {
    remove_tags_from(s, 0)
}

/// The text from position `i` on, with each `&nbsp;` rewritten to a space.
pub open spec fn replace_nbsp_from(s: Seq<char>, i: int) -> Seq<char>
    decreases s.len() - i,
{
    if i < 0 || i >= s.len() {
        Seq::empty()
    } else if crate::text::is_match_at(s, nbsp_pat(), i) {
        seq![' '] + replace_nbsp_from(s, i + 6)
    } else {
        seq![s[i]] + replace_nbsp_from(s, i + 1)
    }
}

/// The literal sequence standing for a non-breaking space.
pub open spec fn nbsp_pat() -> Seq<char> {
    seq!['&', 'n', 'b', 's', 'p', ';']
}

/// The text with each `&nbsp;` rewritten to a space.
pub open spec fn replace_nbsp(s: Seq<char>) -> Seq<char> {
    replace_nbsp_from(s, 0)
}

/// The text from `i` on with whitespace runs collapsed: tokens joined by
/// single spaces. `emitted` records whether a token character has been
/// written already, `gap` whether whitespace has passed since.
pub open spec fn collapse_ws_from(s: Seq<char>, i: int, emitted: bool, gap: bool) -> Seq<char>
    decreases s.len() - i,
{
    if i < 0 || i >= s.len() {
        Seq::empty()
    } else if is_ws(s[i]) {
        collapse_ws_from(s, i + 1, emitted, true)
    } else {
        (if emitted && gap {
            seq![' ']
        } else {
            Seq::empty()
        }) + seq![s[i]] + collapse_ws_from(s, i + 1, true, false)
    }
}

/// The text split on whitespace and joined with single spaces.
pub open spec fn collapse_ws(s: Seq<char>) -> Seq<char> {
    collapse_ws_from(s, 0, false, false)
}

/// The whole markup-stripping stage.
pub open spec fn clean_markup(s: Seq<char>) -> Seq<char> {
    collapse_ws(replace_nbsp(remove_tags(s)))
}

/// Remove tag spans, per [`remove_tags`].
pub fn remove_tags_chars(v: &Vec<char>) -> (r: Vec<char>)
    ensures
        r@ == remove_tags(v@),
{
    let gt: Vec<char> = vec!['>'];
    proof {
        assert(gt@ =~= seq!['>']);
    }
    let mut out: Vec<char> = Vec::new();
    let mut i: usize = 0;
    while i < v.len()
        invariant
            i <= v.len(),
            gt@ == seq!['>'],
            remove_tags(v@) == out@ + remove_tags_from(v@, i as int),
        decreases v.len() - i,
    {
        if v[i] == '<' {
            match find_sub_at(v, &gt, i + 1) {
                Some(k) => {
                    proof {
                        lemma_find_sub_some(v@, gt@, i + 1, k as int);
                        assert(k < v@.len());
                    }
                    if k >= i + 2 {
                        i = k + 1;
                    } else {
                        out.push(v[i]);
                        assert(out@ =~= (out@.drop_last() + seq![v@[i as int]]));
                        i += 1;
                    }
                },
                None => {
                    out.push(v[i]);
                    assert(out@ =~= (out@.drop_last() + seq![v@[i as int]]));
                    i += 1;
                },
            }
        } else {
            out.push(v[i]);
            assert(out@ =~= (out@.drop_last() + seq![v@[i as int]]));
            i += 1;
        }
    }
    out
}

/// Rewrite `&nbsp;`, per [`replace_nbsp`].
pub fn replace_nbsp_chars(v: &Vec<char>) -> (r: Vec<char>)
    ensures
        r@ == replace_nbsp(v@),
{
    let pat: Vec<char> = vec!['&', 'n', 'b', 's', 'p', ';'];
    proof {
        assert(pat@ =~= nbsp_pat());
    }
    let mut out: Vec<char> = Vec::new();
    let mut i: usize = 0;
    while i < v.len()
        invariant
            i <= v.len(),
            pat@ == nbsp_pat(),
            replace_nbsp(v@) == out@ + replace_nbsp_from(v@, i as int),
        decreases v.len() - i,
    {
        if crate::text::match_at(v, &pat, i) {
            out.push(' ');
            i += 6;
        } else {
            out.push(v[i]);
            i += 1;
        }
    }
    out
}

/// Collapse whitespace, per [`collapse_ws`].
pub fn collapse_ws_chars(v: &Vec<char>) -> (r: Vec<char>)
    ensures
        r@ == collapse_ws(v@),
{
    let mut out: Vec<char> = Vec::new();
    let mut emitted = false;
    let mut gap = false;
    let mut i: usize = 0;
    while i < v.len()
        invariant
            i <= v.len(),
            collapse_ws(v@) == out@ + collapse_ws_from(v@, i as int, emitted, gap),
        decreases v.len() - i,
    {
        if is_ws_char(v[i]) {
            gap = true;
        } else {
            if emitted && gap {
                out.push(' ');
            }
            out.push(v[i]);
            emitted = true;
            gap = false;
        }
        i += 1;
    }
    out
}

/// Strip markup from one piece of text: tag spans removed, `&nbsp;`
/// rewritten, whitespace normalized to single spaces. Per [`clean_markup`].
pub fn strip_tags(value: &str) -> (r: String)
    ensures
        r@ == clean_markup(value@),
{
    let v = str_chars(value);
    let a = remove_tags_chars(&v);
    let b = replace_nbsp_chars(&a);
    let c = collapse_ws_chars(&b);
    chars_to_string(&c)
}

/// Strip markup, on character vectors.
pub fn strip_tags_chars(v: &Vec<char>) -> (r: Vec<char>)
    ensures
        r@ == clean_markup(v@),
{
    let a = remove_tags_chars(v);
    let b = replace_nbsp_chars(&a);
    collapse_ws_chars(&b)
}

} // verus!
