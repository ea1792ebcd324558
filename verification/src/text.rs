//! Character-level utilities shared by the parsers and evaluators.
//!
//! The library does its text work on `Vec<char>` values whose view is a
//! `Seq<char>`; these helpers convert between `&str`/`String` and `Vec<char>`
//! and provide the searches, comparisons and number conversions the rest of
//! the crate states its contracts over.

use vstd::prelude::*;

verus! {

/// Collects the characters of a string slice into a vector, one cell per
/// character, so the rest of the library can index text directly.
pub fn chars_of(s: &str) -> (r: Vec<char>)
    ensures
        r@ == s@,
{
    let n = s.unicode_len();
    let mut r: Vec<char> = Vec::new();
    let mut i: usize = 0;
    while i < n
        invariant
            i <= n,
            n == s@.len(),
            r@ =~= s@.subrange(0, i as int),
        decreases n - i,
    {
        r.push(s.get_char(i));
        i = i + 1;
    }
    proof {
        assert(r@ =~= s@);
    }
    r
}

/// Relies on std's `FromIterator<char> for String` (through
/// `Iterator::collect`): the collected string holds exactly the characters
/// of the vector, in order.
#[verifier::external_body]
pub fn string_of(v: &Vec<char>) -> (r: String)
    ensures
        r@ == v@,
{
    v.iter().collect()
}

/// True when the two string slices hold the same characters.
pub fn str_eq(a: &str, b: &str) -> (r: bool)
    ensures
        r == (a@ == b@),
{
    let na = a.unicode_len();
    let nb = b.unicode_len();
    if na != nb {
        proof {
            assert(a@.len() != b@.len());
        }
        return false;
    }
    let mut i: usize = 0;
    while i < na
        invariant
            i <= na,
            na == a@.len(),
            na == b@.len(),
            forall|j: int| 0 <= j < i ==> a@[j] == b@[j],
        decreases na - i,
    {
        if a.get_char(i) != b.get_char(i) {
            return false;
        }
        i = i + 1;
    }
    proof {
        assert(a@ =~= b@);
    }
    true
}

/// True when the two character vectors hold the same characters.
pub fn chars_eq(a: &Vec<char>, b: &Vec<char>) -> (r: bool)
    ensures
        r == (a@ == b@),
{
    if a.len() != b.len() {
        return false;
    }
    let mut i: usize = 0;
    while i < a.len()
        invariant
            i <= a@.len(),
            a@.len() == b@.len(),
            forall|j: int| 0 <= j < i ==> a@[j] == b@[j],
        decreases a@.len() - i,
    {
        if a[i] != b[i] {
            return false;
        }
        i = i + 1;
    }
    proof {
        assert(a@ =~= b@);
    }
    true
}

// ---------------------------------------------------------------------------
// Character classes
// ---------------------------------------------------------------------------

/// The whitespace characters the query language recognises.
pub open spec fn is_space(c: char) -> bool {
    c == ' ' || c == '\t' || c == '\n' || c == '\r'
}

/// Decimal digit.
pub open spec fn is_digit(c: char) -> bool {
    '0' <= c && c <= '9'
}

/// A word character: ASCII letter, digit or underscore.
pub open spec fn is_word_char(c: char) -> bool {
    ('a' <= c && c <= 'z') || ('A' <= c && c <= 'Z') || is_digit(c) || c == '_'
}

#[verifier::when_used_as_spec(is_space)]
pub fn space(c: char) -> (r: bool)
    ensures
        r == is_space(c),
{
    c == ' ' || c == '\t' || c == '\n' || c == '\r'
}

#[verifier::when_used_as_spec(is_digit)]
pub fn digit(c: char) -> (r: bool)
    ensures
        r == is_digit(c),
{
    '0' <= c && c <= '9'
}

#[verifier::when_used_as_spec(is_word_char)]
pub fn word_char(c: char) -> (r: bool)
    ensures
        r == is_word_char(c),
{
    ('a' <= c && c <= 'z') || ('A' <= c && c <= 'Z') || digit(c) || c == '_'
}

// ---------------------------------------------------------------------------
// ASCII case folding
// ---------------------------------------------------------------------------

/// ASCII upper-casing of one character; other characters pass through.
pub open spec fn upper_char(c: char) -> char {
    if 'a' <= c && c <= 'z' {
        (((c as u8) - 32) as u8) as char
    } else {
        c
    }
}

/// ASCII lower-casing of one character; other characters pass through.
pub open spec fn lower_char(c: char) -> char {
    if 'A' <= c && c <= 'Z' {
        (((c as u8) + 32) as u8) as char
    } else {
        c
    }
}

pub open spec fn upper_seq(s: Seq<char>) -> Seq<char> {
    Seq::new(s.len(), |i: int| upper_char(s[i]))
}

pub open spec fn lower_seq(s: Seq<char>) -> Seq<char> {
    Seq::new(s.len(), |i: int| lower_char(s[i]))
}

#[verifier::when_used_as_spec(upper_char)]
pub fn upper_c(c: char) -> (r: char)
    ensures
        r == upper_char(c),
{
    if 'a' <= c && c <= 'z' {
        ((c as u8) - 32) as char
    } else {
        c
    }
}

#[verifier::when_used_as_spec(lower_char)]
pub fn lower_c(c: char) -> (r: char)
    ensures
        r == lower_char(c),
{
    if 'A' <= c && c <= 'Z' {
        ((c as u8) + 32) as char
    } else {
        c
    }
}

/// ASCII upper-case copy of a character vector.
pub fn upper_vec(v: &Vec<char>) -> (r: Vec<char>)
    ensures
        r@ == upper_seq(v@),
{
    let mut r: Vec<char> = Vec::new();
    let mut i: usize = 0;
    while i < v.len()
        invariant
            i <= v@.len(),
            r@ =~= upper_seq(v@).subrange(0, i as int),
        decreases v@.len() - i,
    {
        r.push(upper_c(v[i]));
        i = i + 1;
    }
    proof {
        assert(r@ =~= upper_seq(v@));
    }
    r
}

/// ASCII lower-case copy of a character vector.
pub fn lower_vec(v: &Vec<char>) -> (r: Vec<char>)
    ensures
        r@ == lower_seq(v@),
{
    let mut r: Vec<char> = Vec::new();
    let mut i: usize = 0;
    while i < v.len()
        invariant
            i <= v@.len(),
            r@ =~= lower_seq(v@).subrange(0, i as int),
        decreases v@.len() - i,
    {
        r.push(lower_c(v[i]));
        i = i + 1;
    }
    proof {
        assert(r@ =~= lower_seq(v@));
    }
    r
}

// ---------------------------------------------------------------------------
// Lexicographic comparison
// ---------------------------------------------------------------------------

/// Lexicographic order on character sequences: `a` comes strictly before `b`.
pub open spec fn lex_lt(a: Seq<char>, b: Seq<char>) -> bool
    decreases a.len(),
{
    if b.len() == 0 {
        false
    } else if a.len() == 0 {
        true
    } else if a[0] != b[0] {
        a[0] < b[0]
    } else {
        lex_lt(a.skip(1), b.skip(1))
    }
}

proof fn lemma_lex_skip(a: Seq<char>, b: Seq<char>, i: int)
    requires
        0 <= i <= a.len(),
        i <= b.len(),
        forall|j: int| 0 <= j < i ==> a[j] == b[j],
    ensures
        lex_lt(a, b) == lex_lt(a.skip(i), b.skip(i)),
    decreases i,
{
    if i > 0 {
        assert(a.len() > 0 && b.len() > 0 && a[0] == b[0]);
        assert(lex_lt(a, b) == lex_lt(a.skip(1), b.skip(1)));
        assert(a.skip(1).len() == a.len() - 1);
        assert(forall|j: int| 0 <= j < i - 1 ==> a.skip(1)[j] == b.skip(1)[j]);
        lemma_lex_skip(a.skip(1), b.skip(1), i - 1);
        assert(a.skip(1).skip(i - 1) =~= a.skip(i));
        assert(b.skip(1).skip(i - 1) =~= b.skip(i));
    } else {
        assert(a.skip(0) =~= a);
        assert(b.skip(0) =~= b);
    }
}

/// True when `a` comes strictly before `b` in lexicographic order.
pub fn chars_lt(a: &Vec<char>, b: &Vec<char>) -> (r: bool)
    ensures
        r == lex_lt(a@, b@),
{
    let n = if a.len() < b.len() {
        a.len()
    } else {
        b.len()
    };
    let mut i: usize = 0;
    while i < n
        invariant
            i <= n,
            n == if a@.len() < b@.len() {
                a@.len() as int
            } else {
                b@.len() as int
            },
            forall|j: int| 0 <= j < i ==> a@[j] == b@[j],
        decreases n - i,
    {
        if a[i] != b[i] {
            proof {
                lemma_lex_skip(a@, b@, i as int);
                assert(lex_lt(a@.skip(i as int), b@.skip(i as int)) == (a@[i as int]
                    < b@[i as int]));
            }
            return a[i] < b[i];
        }
        i = i + 1;
    }
    proof {
        lemma_lex_skip(a@, b@, n as int);
    }
    a.len() < b.len()
}

// ---------------------------------------------------------------------------
// Substring search
// ---------------------------------------------------------------------------

/// The pattern `p` occurs in `t` starting at position `i`.
pub open spec fn is_at(t: Seq<char>, i: int, p: Seq<char>) -> bool {
    0 <= i && i + p.len() <= t.len() && t.subrange(i, i + p.len()) == p
}

/// Position of the first occurrence of `p` in `t` at or after `i`.
pub open spec fn find_at(t: Seq<char>, p: Seq<char>, i: int) -> Option<int>
    decreases t.len() - i + 1,
{
    if i < 0 || i + p.len() > t.len() {
        None
    } else if is_at(t, i, p) {
        Some(i)
    } else {
        find_at(t, p, i + 1)
    }
}

/// A found occurrence really is one: where `find_at` points, the pattern
/// stands.
pub proof fn lemma_find_at_some(t: Seq<char>, p: Seq<char>, i: int, j: int)
    requires
        find_at(t, p, i) == Some(j),
    ensures
        i <= j,
        is_at(t, j, p),
    decreases t.len() - i + 1,
{
    if !(i < 0 || i + p.len() > t.len()) && !is_at(t, i, p) {
        lemma_find_at_some(t, p, i + 1, j);
    }
}

/// `t` contains `p` as a contiguous subsequence.
pub open spec fn contains_seq(t: Seq<char>, p: Seq<char>) -> bool {
    find_at(t, p, 0) is Some
}

/// True when `p` occurs in `t` at position `i`.
pub fn match_at(t: &Vec<char>, i: usize, p: &Vec<char>) -> (r: bool)
    requires
        i <= t@.len(),
    ensures
        r == is_at(t@, i as int, p@),
{
    if p.len() > t.len() - i {
        return false;
    }
    let tl: usize = t.len();
    let mut j: usize = 0;
    while j < p.len()
        invariant
            j <= p@.len(),
            tl == t@.len(),
            i + p@.len() <= t@.len(),
            forall|k: int| 0 <= k < j ==> t@[i + k] == p@[k],
        decreases p@.len() - j,
    {
        proof {
            assert(i + j < tl);
        }
        if t[i + j] != p[j] {
            proof {
                assert(t@.subrange(i as int, i + p@.len())[j as int] == t@[i + j]);
            }
            return false;
        }
        j = j + 1;
    }
    proof {
        assert(t@.subrange(i as int, i + p@.len()) =~= p@);
    }
    true
}

/// Finds the first occurrence of `p` in `t` at or after `from`.
pub fn find_from(t: &Vec<char>, p: &Vec<char>, from: usize) -> (r: Option<usize>)
    requires
        from <= t@.len(),
    ensures
        match r {
            Some(i) => from <= i && find_at(t@, p@, from as int) == Some(i as int),
            None => find_at(t@, p@, from as int) is None,
        },
{
    if p.len() == 0 {
        proof {
            assert(p@ =~= Seq::<char>::empty());
            assert(t@.subrange(from as int, from as int) =~= Seq::<char>::empty());
        }
        return Some(from);
    }
    let mut i: usize = from;
    loop
        invariant
            from <= i <= t@.len(),
            p@.len() > 0,
            find_at(t@, p@, from as int) == find_at(t@, p@, i as int),
        decreases t@.len() - i,
    {
        if p.len() > t.len() - i {
            return None;
        }
        if match_at(t, i, p) {
            return Some(i);
        }
        i = i + 1;
    }
}

// ---------------------------------------------------------------------------
// Slicing and concatenation
// ---------------------------------------------------------------------------

/// Copies `t[from..to]` into a fresh vector.
pub fn subvec(t: &Vec<char>, from: usize, to: usize) -> (r: Vec<char>)
    requires
        from <= to <= t@.len(),
    ensures
        r@ == t@.subrange(from as int, to as int),
{
    let mut r: Vec<char> = Vec::new();
    let mut i: usize = from;
    while i < to
        invariant
            from <= i <= to <= t@.len(),
            r@ =~= t@.subrange(from as int, i as int),
        decreases to - i,
    {
        r.push(t[i]);
        i = i + 1;
    }
    proof {
        assert(r@ =~= t@.subrange(from as int, to as int));
    }
    r
}

/// Appends all of `s` to `out`.
pub fn push_all(out: &mut Vec<char>, s: &Vec<char>)
    ensures
        final(out)@ == old(out)@ + s@,
{
    let mut i: usize = 0;
    while i < s.len()
        invariant
            i <= s@.len(),
            out@ =~= old(out)@ + s@.subrange(0, i as int),
        decreases s@.len() - i,
    {
        out.push(s[i]);
        i = i + 1;
    }
    proof {
        assert(out@ =~= old(out)@ + s@);
    }
}

// ---------------------------------------------------------------------------
// Replacement
// ---------------------------------------------------------------------------

/// `t` with every (leftmost, non-overlapping) occurrence of `p` replaced
/// by `r`; an empty pattern replaces nothing.
pub open spec fn replace_seq(t: Seq<char>, p: Seq<char>, r: Seq<char>) -> Seq<char>
    decreases t.len(),
{
    if p.len() == 0 {
        t
    } else {
        match find_at(t, p, 0) {
            None => t,
            Some(i) => if 0 <= i && i + p.len() <= t.len() {
                t.subrange(0, i) + r + replace_seq(t.skip(i + p.len()), p, r)
            } else {
                t
            },
        }
    }
}

/// Replaces every occurrence of `p` in `t` by `r`.
pub fn replace_chars(t: &Vec<char>, p: &Vec<char>, r: &Vec<char>) -> (out: Vec<char>)
    ensures
        out@ == replace_seq(t@, p@, r@),
    decreases t@.len(),
{
    if p.len() == 0 {
        return subvec(t, 0, t.len());
    }
    match find_from(t, p, 0) {
        None => {
            proof {
                assert(t@.subrange(0, t@.len() as int) =~= t@);
            }
            subvec(t, 0, t.len())
        },
        Some(i) => {
            proof {
                lemma_find_at_some(t@, p@, 0, i as int);
            }
            let tl = t.len();
            proof {
                assert(i + p@.len() <= tl as int);
            }
            let mut out = subvec(t, 0, i);
            push_all(&mut out, r);
            let tail = subvec(t, i + p.len(), tl);
            proof {
                assert(tail@ =~= t@.skip(i + p@.len()));
            }
            let rest = replace_chars(&tail, p, r);
            push_all(&mut out, &rest);
            proof {
                assert(out@ =~= t@.subrange(0, i as int) + r@ + replace_seq(
                    t@.skip(i + p@.len()),
                    p@,
                    r@,
                ));
            }
            out
        },
    }
}

// ---------------------------------------------------------------------------
// Trimming
// ---------------------------------------------------------------------------

/// Index of the first non-whitespace character of `s`, or `s.len()`.
pub open spec fn trim_start_idx(s: Seq<char>, i: int) -> int
    decreases s.len() - i,
{
    if i < 0 || i >= s.len() {
        s.len() as int
    } else if is_space(s[i]) {
        trim_start_idx(s, i + 1)
    } else {
        i
    }
}

/// One past the last non-whitespace character of `s` at or before `j`, or 0.
pub open spec fn trim_end_idx(s: Seq<char>, j: int) -> int
    decreases j,
{
    if j <= 0 || j > s.len() {
        0
    } else if is_space(s[j - 1]) {
        trim_end_idx(s, j - 1)
    } else {
        j
    }
}

/// The view of `s` with leading and trailing whitespace removed.
pub open spec fn trim_seq(s: Seq<char>) -> Seq<char> {
    let a = trim_start_idx(s, 0);
    let b = trim_end_idx(s, s.len() as int);
    if a <= b {
        s.subrange(a, b)
    } else {
        Seq::empty()
    }
}

proof fn lemma_trim_start_bounds(s: Seq<char>, i: int)
    requires
        0 <= i <= s.len(),
    ensures
        i <= trim_start_idx(s, i) <= s.len(),
    decreases s.len() - i,
{
    if i < s.len() && is_space(s[i]) {
        lemma_trim_start_bounds(s, i + 1);
    }
}

proof fn lemma_trim_end_bounds(s: Seq<char>, j: int)
    requires
        0 <= j <= s.len(),
    ensures
        0 <= trim_end_idx(s, j) <= j,
    decreases j,
{
    if j > 0 && is_space(s[j - 1]) {
        lemma_trim_end_bounds(s, j - 1);
    }
}

/// Copy of `s` with leading and trailing whitespace removed.
pub fn trim(s: &Vec<char>) -> (r: Vec<char>)
    ensures
        r@ == trim_seq(s@),
{
    let mut a: usize = 0;
    while a < s.len() && space(s[a])
        invariant
            0 <= a <= s@.len(),
            trim_start_idx(s@, 0) == trim_start_idx(s@, a as int),
        decreases s@.len() - a,
    {
        a = a + 1;
    }
    proof {
        assert(trim_start_idx(s@, a as int) == a as int);
    }
    let mut b: usize = s.len();
    while b > a && space(s[b - 1])
        invariant
            a <= b <= s@.len(),
            trim_end_idx(s@, s@.len() as int) == trim_end_idx(s@, b as int),
            trim_start_idx(s@, 0) == a as int,
        decreases b,
    {
        b = b - 1;
    }
    proof {
        if b == a {
            lemma_trim_end_bounds(s@, b as int);
            assert(trim_end_idx(s@, b as int) <= a as int);
            if trim_end_idx(s@, b as int) < a as int {
                assert(trim_seq(s@) == Seq::<char>::empty() || trim_seq(s@) == s@.subrange(
                    a as int,
                    trim_end_idx(s@, b as int),
                ));
            }
        } else {
            assert(!is_space(s@[b - 1]));
            assert(trim_end_idx(s@, b as int) == b as int);
        }
    }
    if b <= a {
        let r: Vec<char> = Vec::new();
        proof {
            lemma_trim_end_bounds(s@, b as int);
            assert(trim_end_idx(s@, s@.len() as int) <= a as int);
            if trim_end_idx(s@, s@.len() as int) == a as int {
                assert(trim_seq(s@) =~= Seq::<char>::empty());
            } else {
                assert(trim_seq(s@) =~= Seq::<char>::empty());
            }
        }
        r
    } else {
        subvec(s, a, b)
    }
}

// ---------------------------------------------------------------------------
// Decimal numbers
// ---------------------------------------------------------------------------

/// Numeric value of a sequence of decimal digits.
pub open spec fn dec_val(s: Seq<char>) -> nat
    decreases s.len(),
{
    if s.len() == 0 {
        0
    } else {
        (dec_val(s.drop_last()) * 10 + (s.last() as int - '0' as int)) as nat
    }
}

/// All characters of `s` are decimal digits.
pub open spec fn all_digits(s: Seq<char>) -> bool {
    forall|i: int| 0 <= i < s.len() ==> is_digit(#[trigger] s[i])
}

/// Parses a non-empty run of decimal digits as a `u64`.
/// Returns `None` when `s` is empty, holds a non-digit, or the value
/// does not fit in a `u64`.
pub fn parse_u64(s: &Vec<char>) -> (r: Option<u64>)
    ensures
        match r {
            Some(n) => s@.len() > 0 && all_digits(s@) && n == dec_val(s@),
            None => s@.len() == 0 || !all_digits(s@) || dec_val(s@) > u64::MAX,
        },
{
    if s.len() == 0 {
        return None;
    }
    let mut acc: u64 = 0;
    let mut i: usize = 0;
    while i < s.len()
        invariant
            i <= s@.len(),
            all_digits(s@.subrange(0, i as int)),
            acc == dec_val(s@.subrange(0, i as int)),
        decreases s@.len() - i,
    {
        let c = s[i];
        if !digit(c) {
            proof {
                assert(!all_digits(s@));
            }
            return None;
        }
        let d: u64 = (c as u32 - '0' as u32) as u64;
        proof {
            assert(d <= 9) by {
                assert(is_digit(c));
            };
        }
        if acc > (u64::MAX - d) / 10 {
            proof {
                lemma_dec_val_prefix_grows(s@, i as int);
                assert(dec_val(s@.subrange(0, i + 1)) == acc * 10 + d);
                if all_digits(s@) {
                    lemma_dec_val_monotone(s@, i + 1);
                    assert(dec_val(s@) >= dec_val(s@.subrange(0, i + 1)));
                }
                assert(acc * 10 + d > u64::MAX) by (nonlinear_arith)
                    requires
                        acc > (u64::MAX - d) / 10,
                        d <= 9,
                ;
            }
            return None;
        }
        proof {
            assert(acc * 10 + d <= u64::MAX) by (nonlinear_arith)
                requires
                    acc <= (u64::MAX - d) / 10,
                    d <= 9,
            ;
            lemma_dec_val_prefix_grows(s@, i as int);
        }
        acc = acc * 10 + d;
        i = i + 1;
    }
    proof {
        assert(s@.subrange(0, s@.len() as int) =~= s@);
    }
    Some(acc)
}

proof fn lemma_dec_val_prefix_grows(s: Seq<char>, i: int)
    requires
        0 <= i < s.len(),
    ensures
        dec_val(s.subrange(0, i + 1)) == (dec_val(s.subrange(0, i)) * 10 + (s[i] as int
            - '0' as int)) as nat,
{
    let p = s.subrange(0, i + 1);
    assert(p.drop_last() =~= s.subrange(0, i));
    assert(p.last() == s[i]);
}

proof fn lemma_dec_val_monotone(s: Seq<char>, i: int)
    requires
        0 <= i <= s.len(),
        all_digits(s),
    ensures
        dec_val(s) >= dec_val(s.subrange(0, i)),
    decreases s.len() - i,
{
    if i < s.len() {
        lemma_dec_val_prefix_grows(s, i);
        assert(dec_val(s.subrange(0, i + 1)) >= dec_val(s.subrange(0, i)));
        lemma_dec_val_monotone(s, i + 1);
    } else {
        assert(s.subrange(0, i) =~= s);
    }
}

/// Parses a run of decimal digits as a `usize`.
pub fn parse_usize(s: &Vec<char>) -> (r: Option<usize>)
    ensures
        match r {
            Some(n) => s@.len() > 0 && all_digits(s@) && n == dec_val(s@),
            None => s@.len() == 0 || !all_digits(s@) || dec_val(s@) > usize::MAX,
        },
{
    match parse_u64(s) {
        Some(n) => {
            if n <= usize::MAX as u64 {
                Some(n as usize)
            } else {
                None
            }
        },
        None => None,
    }
}

/// The decimal digit character for `d`.
pub open spec fn digit_char(d: nat) -> char {
    ((d + ('0' as nat)) as u8) as char
}

/// Decimal representation of `n`, most significant digit first.
pub open spec fn dec_str(n: nat) -> Seq<char>
    decreases n,
{
    if n < 10 {
        seq![digit_char(n)]
    } else {
        dec_str(n / 10).push(digit_char(n % 10))
    }
}

/// Formats `n` in decimal.
pub fn fmt_u64(n: u64) -> (r: Vec<char>)
    ensures
        r@ == dec_str(n as nat),
{
    let mut digits: Vec<char> = Vec::new();
    let mut m: u64 = n;
    if m == 0 {
        digits.push('0');
        proof {
            assert(dec_str(0) =~= seq!['0']) by {
                assert(digit_char(0) == '0');
            };
        }
        return digits;
    }
    let mut rev: Vec<char> = Vec::new();
    while m > 0
        invariant
            dec_str(n as nat) == if m > 0 {
                dec_str(m as nat) + rev@.reverse()
            } else {
                rev@.reverse()
            },
        decreases m,
    {
        let d: u64 = m % 10;
        let c: char = (('0' as u32) + d as u32) as u8 as char;
        proof {
            assert(c == digit_char(d as nat));
            if m >= 10 {
                assert(dec_str(m as nat) == dec_str((m / 10) as nat).push(
                    digit_char((m % 10) as nat),
                ));
                assert(dec_str((m / 10) as nat) + (rev@.push(c)).reverse() == dec_str(m as nat)
                    + rev@.reverse()) by {
                    assert((rev@.push(c)).reverse() =~= seq![c] + rev@.reverse());
                    assert(dec_str((m / 10) as nat).push(c) + rev@.reverse() == dec_str(
                        (m / 10) as nat,
                    ) + (seq![c] + rev@.reverse())) by {
                        assert(dec_str((m / 10) as nat).push(c) + rev@.reverse() =~= dec_str(
                            (m / 10) as nat,
                        ) + (seq![c] + rev@.reverse()));
                    };
                };
            } else {
                assert(dec_str(m as nat) =~= seq![c]);
                assert((rev@.push(c)).reverse() =~= seq![c] + rev@.reverse());
            }
        }
        rev.push(c);
        m = m / 10;
    }
    let mut out: Vec<char> = Vec::new();
    let mut i: usize = rev.len();
    while i > 0
        invariant
            i <= rev@.len(),
            out@ =~= rev@.subrange(i as int, rev@.len() as int).reverse(),
        decreases i,
    {
        i = i - 1;
        out.push(rev[i]);
        proof {
            assert(out@ =~= rev@.subrange(i as int, rev@.len() as int).reverse());
        }
    }
    proof {
        assert(rev@.subrange(0, rev@.len() as int) =~= rev@);
        assert(out@ =~= rev@.reverse());
    }
    out
}

// ---------------------------------------------------------------------------
// Octal numbers
// ---------------------------------------------------------------------------

/// Octal representation of `n`, most significant digit first.
pub open spec fn oct_str(n: nat) -> Seq<char>
    decreases n,
{
    if n < 8 {
        seq![digit_char(n)]
    } else {
        oct_str(n / 8).push(digit_char(n % 8))
    }
}

/// Formats `n` in octal, as the permission bits of a record are shown.
pub fn fmt_octal(n: u32) -> (r: Vec<char>)
    ensures
        r@ == oct_str(n as nat),
{
    let mut m: u32 = n;
    if m == 0 {
        let mut digits: Vec<char> = Vec::new();
        digits.push('0');
        proof {
            assert(oct_str(0) =~= seq!['0']) by {
                assert(digit_char(0) == '0');
            };
        }
        return digits;
    }
    let mut rev: Vec<char> = Vec::new();
    while m > 0
        invariant
            oct_str(n as nat) == if m > 0 {
                oct_str(m as nat) + rev@.reverse()
            } else {
                rev@.reverse()
            },
        decreases m,
    {
        let d: u32 = m % 8;
        let c: char = (('0' as u32) + d) as u8 as char;
        proof {
            assert(c == digit_char(d as nat));
            if m >= 8 {
                assert(oct_str(m as nat) == oct_str((m / 8) as nat).push(
                    digit_char((m % 8) as nat),
                ));
                assert(oct_str((m / 8) as nat) + (rev@.push(c)).reverse() == oct_str(m as nat)
                    + rev@.reverse()) by {
                    assert((rev@.push(c)).reverse() =~= seq![c] + rev@.reverse());
                    assert(oct_str((m / 8) as nat).push(c) + rev@.reverse() =~= oct_str(
                        (m / 8) as nat,
                    ) + (seq![c] + rev@.reverse()));
                };
            } else {
                assert(oct_str(m as nat) =~= seq![c]);
                assert((rev@.push(c)).reverse() =~= seq![c] + rev@.reverse());
            }
        }
        rev.push(c);
        m = m / 8;
    }
    let mut out: Vec<char> = Vec::new();
    let mut i: usize = rev.len();
    while i > 0
        invariant
            i <= rev@.len(),
            out@ =~= rev@.subrange(i as int, rev@.len() as int).reverse(),
        decreases i,
    {
        i = i - 1;
        out.push(rev[i]);
        proof {
            assert(out@ =~= rev@.subrange(i as int, rev@.len() as int).reverse());
        }
    }
    proof {
        assert(rev@.subrange(0, rev@.len() as int) =~= rev@);
        assert(out@ =~= rev@.reverse());
    }
    out
}

} // verus!
