//! The LIKE-style wildcard matcher.
//!
//! A pattern is matched against the whole text (anchored at both ends):
//! `%` matches any run of characters, including the empty run, `_` matches
//! exactly one character, and every other character — backslash included —
//! matches itself literally. There is no implicit case folding.

use vstd::prelude::*;
use crate::text::chars_of;

verus! {

/// Whether `pat` matches all of `text`.
pub open spec fn like_matches(text: Seq<char>, pat: Seq<char>) -> bool
    decreases text.len() + pat.len(),
{
    if pat.len() == 0 {
        text.len() == 0
    } else if pat[0] == '%' {
        like_matches(text, pat.skip(1)) || (text.len() > 0 && like_matches(text.skip(1), pat))
    } else if pat[0] == '_' {
        text.len() > 0 && like_matches(text.skip(1), pat.skip(1))
    } else {
        text.len() > 0 && text[0] == pat[0] && like_matches(text.skip(1), pat.skip(1))
    }
}

fn like_rec(text: &Vec<char>, pat: &Vec<char>, ti: usize, pi: usize) -> (r: bool)
    requires
        ti <= text@.len(),
        pi <= pat@.len(),
    ensures
        r == like_matches(text@.skip(ti as int), pat@.skip(pi as int)),
    decreases (text@.len() - ti) + (pat@.len() - pi),
{
    proof {
        if pi < pat@.len() {
            assert(pat@.skip(pi as int)[0] == pat@[pi as int]);
            assert(pat@.skip(pi as int).skip(1) =~= pat@.skip(pi + 1));
        }
        if ti < text@.len() {
            assert(text@.skip(ti as int)[0] == text@[ti as int]);
            assert(text@.skip(ti as int).skip(1) =~= text@.skip(ti + 1));
        }
    }
    if pi >= pat.len() {
        return ti >= text.len();
    }
    let pc = pat[pi];
    if pc == '%' {
        if like_rec(text, pat, ti, pi + 1) {
            return true;
        }
        if ti < text.len() {
            return like_rec(text, pat, ti + 1, pi);
        }
        false
    } else if pc == '_' {
        if ti < text.len() {
            like_rec(text, pat, ti + 1, pi + 1)
        } else {
            false
        }
    } else {
        if ti < text.len() && text[ti] == pc {
            like_rec(text, pat, ti + 1, pi + 1)
        } else {
            false
        }
    }
}

/// Whether the wildcard `pattern` matches all of `text`.
pub fn like_match(text: &str, pattern: &str) -> (r: bool)
    ensures
        r == like_matches(text@, pattern@),
{
    let t = chars_of(text);
    let p = chars_of(pattern);
    like_match_chars(&t, &p)
}

/// `like_match` on already-split character vectors.
pub fn like_match_chars(t: &Vec<char>, p: &Vec<char>) -> (r: bool)
    ensures
        r == like_matches(t@, p@),
{
    let r = like_rec(t, p, 0, 0);
    proof {
        assert(t@.skip(0) =~= t@);
        assert(p@.skip(0) =~= p@);
    }
    r
}

} // verus!
