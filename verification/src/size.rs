//! Unit-aware sizes and decimal quantities.
//!
//! Sizes are written "`<number> <unit>?`" with unit one of B, KB, MB, GB, TB
//! (binary, a factor of 1024 per step, B when absent). The library keeps a
//! parsed size as an exact scaled integer — a decimal mantissa, a count of
//! fraction digits and a unit exponent — and compares two sizes by exact
//! cross-multiplication, so `1 KB` and `1024 B` are equal. Percentages
//! (processor load) are kept the same way and compared with a tolerance of
//! one tenth.

use vstd::prelude::*;
use crate::text::{is_digit, is_space, all_digits, dec_val, dec_str, digit, space, digit_char,
    chars_of, push_all};

verus! {

/// 1024 to the power `u`.
pub open spec fn pow1024(u: nat) -> nat
    decreases u,
{
    if u == 0 {
        1
    } else {
        1024 * pow1024((u - 1) as nat)
    }
}

/// 10 to the power `k`.
pub open spec fn pow10(k: nat) -> nat
    decreases k,
{
    if k == 0 {
        1
    } else {
        10 * pow10((k - 1) as nat)
    }
}

/// A parsed size: the value `mant * 1024^unit / 10^frac` bytes.
#[derive(Clone, Copy, Debug, PartialEq, Eq, Structural)]
pub struct SizeValue {
    /// Decimal mantissa.
    pub mant: u64,
    /// How many of the mantissa's digits lie behind the decimal point.
    pub frac: u8,
    /// Unit exponent: 0 for B up to 4 for TB.
    pub unit: u8,
}

/// The bounds every parsed size meets: they keep the exact comparison
/// inside 128-bit arithmetic.
pub open spec fn size_wf(s: SizeValue) -> bool {
    s.frac <= 6 && s.unit <= 4
}

/// The size `a` is strictly smaller than `b`.
pub open spec fn size_lt_spec(a: SizeValue, b: SizeValue) -> bool {
    a.mant * pow1024(a.unit as nat) * pow10(b.frac as nat) < b.mant * pow1024(b.unit as nat)
        * pow10(a.frac as nat)
}

/// The sizes `a` and `b` denote exactly the same number of bytes.
pub open spec fn size_eq_spec(a: SizeValue, b: SizeValue) -> bool {
    a.mant * pow1024(a.unit as nat) * pow10(b.frac as nat) == b.mant * pow1024(b.unit as nat)
        * pow10(a.frac as nat)
}

fn pow1024_u128(u: u8) -> (r: u128)
    requires
        u <= 4,
    ensures
        r == pow1024(u as nat),
        1 <= r <= 0x10000000000u128,
{
    proof {
        assert(pow1024(0) == 1);
        assert(pow1024(1) == 1024);
        assert(pow1024(2) == 1048576);
        assert(pow1024(3) == 1073741824);
        assert(pow1024(4) == 1099511627776);
    }
    if u == 0 {
        1
    } else if u == 1 {
        1024
    } else if u == 2 {
        1048576
    } else if u == 3 {
        1073741824
    } else {
        1099511627776
    }
}

fn pow10_u128(k: u8) -> (r: u128)
    requires
        k <= 12,
    ensures
        r == pow10(k as nat),
        1 <= r <= 1000000000000u128,
{
    proof {
        assert(pow10(0) == 1);
        assert(pow10(1) == 10);
        assert(pow10(2) == 100);
        assert(pow10(3) == 1000);
        assert(pow10(4) == 10000);
        assert(pow10(5) == 100000);
        assert(pow10(6) == 1000000);
        assert(pow10(7) == 10000000);
        assert(pow10(8) == 100000000);
        assert(pow10(9) == 1000000000);
        assert(pow10(10) == 10000000000);
        assert(pow10(11) == 100000000000);
        assert(pow10(12) == 1000000000000);
    }
    if k == 0 {
        1
    } else if k == 1 {
        10
    } else if k == 2 {
        100
    } else if k == 3 {
        1000
    } else if k == 4 {
        10000
    } else if k == 5 {
        100000
    } else if k == 6 {
        1000000
    } else if k == 7 {
        10000000
    } else if k == 8 {
        100000000
    } else if k == 9 {
        1000000000
    } else if k == 10 {
        10000000000
    } else if k == 11 {
        100000000000
    } else {
        1000000000000
    }
}

/// Exact `a < b` on sizes.
pub fn size_lt(a: &SizeValue, b: &SizeValue) -> (r: bool)
    requires
        size_wf(*a),
        size_wf(*b),
    ensures
        r == size_lt_spec(*a, *b),
{
    proof {
        lemma_pow1024_bounds(a.unit as nat);
        lemma_pow1024_bounds(b.unit as nat);
        lemma_pow10_bounds(a.frac as nat);
        lemma_pow10_bounds(b.frac as nat);
        lemma_scale_bound(a.mant as nat, pow1024(a.unit as nat), pow10(b.frac as nat));
        lemma_scale_bound(b.mant as nat, pow1024(b.unit as nat), pow10(a.frac as nat));
    }
    let pa = pow1024_u128(a.unit);
    let qa = pow10_u128(b.frac);
    let pb = pow1024_u128(b.unit);
    let qb = pow10_u128(a.frac);
    let lhs: u128 = (a.mant as u128) * pa * qa;
    let rhs: u128 = (b.mant as u128) * pb * qb;
    lhs < rhs
}

/// Exact `a == b` on sizes.
pub fn size_eq(a: &SizeValue, b: &SizeValue) -> (r: bool)
    requires
        size_wf(*a),
        size_wf(*b),
    ensures
        r == size_eq_spec(*a, *b),
{
    proof {
        lemma_pow1024_bounds(a.unit as nat);
        lemma_pow1024_bounds(b.unit as nat);
        lemma_pow10_bounds(a.frac as nat);
        lemma_pow10_bounds(b.frac as nat);
        lemma_scale_bound(a.mant as nat, pow1024(a.unit as nat), pow10(b.frac as nat));
        lemma_scale_bound(b.mant as nat, pow1024(b.unit as nat), pow10(a.frac as nat));
    }
    let pa = pow1024_u128(a.unit);
    let qa = pow10_u128(b.frac);
    let pb = pow1024_u128(b.unit);
    let qb = pow10_u128(a.frac);
    let lhs: u128 = (a.mant as u128) * pa * qa;
    let rhs: u128 = (b.mant as u128) * pb * qb;
    lhs == rhs
}

/// 1024 to the power `u`, as a 128-bit integer.
pub fn pow1024_exec(u: u8) -> (r: u128)
    requires
        u <= 4,
    ensures
        r == pow1024(u as nat),
        1 <= r <= 0x10000000000u128,
{
    pow1024_u128(u)
}

/// 10 to the power `k`, as a 128-bit integer.
pub fn pow10_exec(k: u8) -> (r: u128)
    requires
        k <= 12,
    ensures
        r == pow10(k as nat),
        1 <= r <= 1000000000000u128,
{
    pow10_u128(k)
}

/// Scaling a mantissa by its unit and up to six decimal places stays
/// within 128 bits.
pub proof fn lemma_pow_key_bound(m: nat, u: nat, k: nat)
    requires
        m <= u64::MAX,
        u <= 4,
        k <= 6,
    ensures
        m * pow1024(u) <= u128::MAX,
        m * pow1024(u) * pow10((6 - k) as nat) <= u128::MAX,
{
    lemma_pow1024_bounds(u);
    lemma_pow10_bounds((6 - k) as nat);
    lemma_scale_bound(m, pow1024(u), pow10((6 - k) as nat));
}

proof fn lemma_pow1024_bounds(u: nat)
    requires
        u <= 4,
    ensures
        1 <= pow1024(u) <= 0x10000000000,
{
    assert(pow1024(0) == 1);
    assert(pow1024(1) == 1024);
    assert(pow1024(2) == 1048576);
    assert(pow1024(3) == 1073741824);
    assert(pow1024(4) == 1099511627776);
    assert(u == 0 || u == 1 || u == 2 || u == 3 || u == 4);
}

proof fn lemma_pow10_bounds(k: nat)
    requires
        k <= 12,
    ensures
        1 <= pow10(k) <= 1000000000000,
        k <= 6 ==> pow10(k) <= 1000000,
{
    assert(pow10(0) == 1);
    assert(pow10(1) == 10);
    assert(pow10(2) == 100);
    assert(pow10(3) == 1000);
    assert(pow10(4) == 10000);
    assert(pow10(5) == 100000);
    assert(pow10(6) == 1000000);
    assert(pow10(7) == 10000000);
    assert(pow10(8) == 100000000);
    assert(pow10(9) == 1000000000);
    assert(pow10(10) == 10000000000);
    assert(pow10(11) == 100000000000);
    assert(pow10(12) == 1000000000000);
    assert(k == 0 || k == 1 || k == 2 || k == 3 || k == 4 || k == 5 || k == 6 || k == 7 || k == 8
        || k == 9 || k == 10 || k == 11 || k == 12);
}

proof fn lemma_scale_bound(m: nat, p: nat, q: nat)
    requires
        m <= u64::MAX,
        p <= 0x10000000000,
        q <= 10000000,
    ensures
        m * p <= u128::MAX,
        m * p * q <= u128::MAX,
{
    assert(m * p <= u64::MAX * 0x10000000000) by (nonlinear_arith)
        requires
            m <= u64::MAX,
            p <= 0x10000000000,
    ;
    assert(m * p * q <= (u64::MAX * 0x10000000000) * 10000000) by (nonlinear_arith)
        requires
            m * p <= u64::MAX * 0x10000000000,
            q <= 10000000,
    ;
}

// ---------------------------------------------------------------------------
// Parsing
// ---------------------------------------------------------------------------

/// Index of the first character of `s` at or after `i` that can start a
/// number (a digit or a dot).
pub open spec fn num_start(s: Seq<char>, i: int) -> Option<int>
    decreases s.len() - i + 1,
{
    if i < 0 || i >= s.len() {
        None
    } else if is_digit(s[i]) || s[i] == '.' {
        Some(i)
    } else {
        num_start(s, i + 1)
    }
}

/// End (exclusive) of the run of digits and dots starting at `i`.
pub open spec fn num_end(s: Seq<char>, i: int) -> int
    decreases s.len() - i + 1,
{
    if i < 0 || i >= s.len() {
        s.len() as int
    } else if is_digit(s[i]) || s[i] == '.' {
        num_end(s, i + 1)
    } else {
        i
    }
}

/// The digits of `s`, with any dots removed.
pub open spec fn digits_of(s: Seq<char>) -> Seq<char> {
    s.filter(|c: char| c != '.')
}

/// How many dots `s` holds.
pub open spec fn dot_count(s: Seq<char>) -> nat {
    s.filter(|c: char| c == '.').len()
}

/// Position of the first dot of `s` at or after `i`.
pub open spec fn first_dot(s: Seq<char>, i: int) -> Option<int>
    decreases s.len() - i + 1,
{
    if i < 0 || i >= s.len() {
        None
    } else if s[i] == '.' {
        Some(i)
    } else {
        first_dot(s, i + 1)
    }
}

/// How many digits of the run lie behind its dot (0 when there is no dot).
pub open spec fn frac_count(run: Seq<char>) -> nat {
    match first_dot(run, 0) {
        None => 0,
        Some(d) => (run.len() - 1 - d) as nat,
    }
}

/// Strips trailing zero fraction digits: the canonical form of a decimal.
pub open spec fn norm_dec(m: nat, k: nat) -> (nat, nat)
    decreases k,
{
    if k > 0 && m % 10 == 0 {
        norm_dec(m / 10, (k - 1) as nat)
    } else {
        (m, k)
    }
}

/// First index at or after `i` that is not whitespace.
pub open spec fn skip_ws(s: Seq<char>, i: int) -> int
    decreases s.len() - i + 1,
{
    if i < 0 || i >= s.len() {
        s.len() as int
    } else if is_space(s[i]) {
        skip_ws(s, i + 1)
    } else {
        i
    }
}

/// The unit exponent written at position `i` of `s`, if any:
/// `B` alone is 0, and `KB`, `MB`, `GB`, `TB` are 1 to 4.
pub open spec fn unit_at(s: Seq<char>, i: int) -> Option<nat> {
    if 0 <= i < s.len() && s[i] == 'B' {
        Some(0 as nat)
    } else if 0 <= i && i + 2 <= s.len() && s[i + 1] == 'B' {
        if s[i] == 'K' {
            Some(1 as nat)
        } else if s[i] == 'M' {
            Some(2 as nat)
        } else if s[i] == 'G' {
            Some(3 as nat)
        } else if s[i] == 'T' {
            Some(4 as nat)
        } else {
            None
        }
    } else {
        None
    }
}

/// The raw (un-normalised) mantissa value of the number found in a size
/// text: what its digits spell before trailing fraction zeros are dropped.
pub open spec fn raw_mant(s: Seq<char>) -> nat {
    match num_start(s, 0) {
        None => 0,
        Some(st) => dec_val(digits_of(s.subrange(st, num_end(s, st)))),
    }
}

/// What a size text denotes, before any machine bound is applied:
/// `None` when no number can be found in it or the number is malformed,
/// otherwise the canonical mantissa, fraction length and unit exponent.
pub open spec fn size_of_text(s: Seq<char>) -> Option<(nat, nat, nat)> {
    match num_start(s, 0) {
        None => None,
        Some(st) => {
            let en = num_end(s, st);
            let run = s.subrange(st, en);
            if dot_count(run) > 1 || digits_of(run).len() == 0 {
                None
            } else {
                let mk = norm_dec(dec_val(digits_of(run)), frac_count(run));
                let u = match unit_at(s, skip_ws(s, en)) {
                    Some(u) => u,
                    None => 0,
                };
                Some((mk.0, mk.1, u))
            }
        },
    }
}

proof fn lemma_digits_push(s: Seq<char>, c: char)
    ensures
        digits_of(s.push(c)) == if c == '.' {
            digits_of(s)
        } else {
            digits_of(s).push(c)
        },
        dot_count(s.push(c)) == if c == '.' {
            dot_count(s) + 1
        } else {
            dot_count(s)
        },
{
    reveal(Seq::filter);
    assert(s.push(c).drop_last() =~= s);
}

/// Parses "`<number> <unit>?`" out of a character vector into an exact size.
///
/// Fails with `Invalid size format` when the text holds no digit or dot at
/// all, and with `Invalid number format` when the number found is malformed
/// (more than one dot, or no digits) or too precise to hold exactly (a
/// mantissa beyond `u64`, or more than six significant fraction digits).
pub fn parse_size_chars(s: &Vec<char>) -> (r: Result<SizeValue, String>)
    ensures
        match r {
            Ok(v) => {
                &&& size_wf(v)
                &&& raw_mant(s@) <= u64::MAX
                &&& size_of_text(s@) matches Some(t) && v.mant == t.0 && v.frac == t.1 && v.unit
                    == t.2
            },
            Err(e) => {
                &&& size_of_text(s@) matches Some(t) ==> (raw_mant(s@) > u64::MAX || t.1 > 6)
                &&& if num_start(s@, 0) is None {
                    e@ == "Invalid size format"@
                } else {
                    e@ == "Invalid number format"@
                }
            },
        },
{
    // Find the start of the first digit-or-dot run.
    let mut st: usize = 0;
    while st < s.len() && !(digit(s[st]) || s[st] == '.')
        invariant
            0 <= st <= s@.len(),
            num_start(s@, 0) == num_start(s@, st as int),
        decreases s@.len() - st,
    {
        st = st + 1;
    }
    if st == s.len() {
        return Err(String::from_str("Invalid size format"));
    }
    proof {
        assert(num_start(s@, 0) == Some(st as int));
    }
    // Find the end of the run, collecting digits, dots and the dot position.
    let mut en: usize = st;
    let mut digs: Vec<char> = Vec::new();
    let mut dots: usize = 0;
    let mut dot_idx: usize = 0;
    let mut saw_dot = false;
    while en < s.len() && (digit(s[en]) || s[en] == '.')
        invariant
            st <= en <= s@.len(),
            num_end(s@, st as int) == num_end(s@, en as int),
            digs@ == digits_of(s@.subrange(st as int, en as int)),
            dots == dot_count(s@.subrange(st as int, en as int)),
            saw_dot == (first_dot(s@.subrange(st as int, en as int), 0) is Some),
            saw_dot ==> st <= dot_idx < en && first_dot(s@.subrange(st as int, en as int), 0)
                == Some(dot_idx - st),
            forall|j: int| st <= j < en ==> is_digit(#[trigger] s@[j]) || s@[j] == '.',
        decreases s@.len() - en,
    {
        proof {
            let pre = s@.subrange(st as int, en as int);
            assert(pre.push(s@[en as int]) =~= s@.subrange(st as int, en + 1));
            lemma_digits_push(pre, s@[en as int]);
            lemma_first_dot_push(pre, s@[en as int]);
        }
        let c = s[en];
        if c == '.' {
            dots = dots + 1;
            if !saw_dot {
                saw_dot = true;
                dot_idx = en;
            }
        } else {
            digs.push(c);
        }
        en = en + 1;
    }
    proof {
        assert(num_end(s@, st as int) == en as int);
    }
    let ghost run = s@.subrange(st as int, en as int);
    if dots > 1 || digs.len() == 0 {
        return Err(String::from_str("Invalid number format"));
    }
    proof {
        assert(all_digits(digs@)) by {
            lemma_digits_are_digits(run);
        };
    }
    let mant0 = match crate::text::parse_u64(&digs) {
        Some(m) => m,
        None => {
            proof {
                assert(dec_val(digits_of(run)) > u64::MAX);
            }
            return Err(String::from_str("Invalid number format"));
        },
    };
    let frac0: usize = if saw_dot {
        en - 1 - dot_idx
    } else {
        0
    };
    proof {
        assert(frac0 == frac_count(run));
    }
    // Canonicalise: drop trailing zero fraction digits.
    let mut m: u64 = mant0;
    let mut k: usize = frac0;
    while k > 0 && m % 10 == 0
        invariant
            norm_dec(mant0 as nat, frac0 as nat) == norm_dec(m as nat, k as nat),
        decreases k,
    {
        m = m / 10;
        k = k - 1;
    }
    if k > 6 {
        return Err(String::from_str("Invalid number format"));
    }
    // Read the unit, if any, after optional whitespace.
    let mut j: usize = en;
    while j < s.len() && space(s[j])
        invariant
            en <= j <= s@.len(),
            skip_ws(s@, en as int) == skip_ws(s@, j as int),
        decreases s@.len() - j,
    {
        j = j + 1;
    }
    proof {
        assert(skip_ws(s@, en as int) == j as int);
    }
    let two_more = j < s.len() && s.len() - j >= 2;
    let unit: u8 = if j < s.len() && s[j] == 'B' {
        0
    } else if two_more && s[j + 1] == 'B' && s[j] == 'K' {
        1
    } else if two_more && s[j + 1] == 'B' && s[j] == 'M' {
        2
    } else if two_more && s[j + 1] == 'B' && s[j] == 'G' {
        3
    } else if two_more && s[j + 1] == 'B' && s[j] == 'T' {
        4
    } else {
        0
    };
    Ok(SizeValue { mant: m, frac: k as u8, unit })
}

proof fn lemma_first_dot_push(s: Seq<char>, c: char)
    ensures
        first_dot(s.push(c), 0) == match first_dot(s, 0) {
            Some(d) => Some(d),
            None => if c == '.' {
                Some(s.len() as int)
            } else {
                None
            },
        },
{
    lemma_first_dot_push_rec(s, c, 0);
}

proof fn lemma_first_dot_push_rec(s: Seq<char>, c: char, i: int)
    requires
        0 <= i <= s.len(),
    ensures
        first_dot(s.push(c), i) == match first_dot(s, i) {
            Some(d) => Some(d),
            None => if c == '.' {
                Some(s.len() as int)
            } else {
                None
            },
        },
    decreases s.len() - i,
{
    if i < s.len() {
        assert(s.push(c)[i] == s[i]);
        if s[i] != '.' {
            lemma_first_dot_push_rec(s, c, i + 1);
        }
    } else {
        assert(s.push(c)[i] == c);
        if c != '.' {
            assert(first_dot(s.push(c), i + 1) is None);
        }
    }
}

proof fn lemma_digits_are_digits(run: Seq<char>)
    requires
        forall|j: int| 0 <= j < run.len() ==> is_digit(#[trigger] run[j]) || run[j] == '.',
    ensures
        all_digits(digits_of(run)),
    decreases run.len(),
{
    reveal(Seq::filter);
    if run.len() > 0 {
        assert(run.drop_last().push(run.last()) =~= run);
        lemma_digits_are_digits(run.drop_last());
        lemma_digits_push(run.drop_last(), run.last());
    }
}

/// Parses a size written as a string.
pub fn parse_size(size_str: &str) -> (r: Result<SizeValue, String>)
    ensures
        match r {
            Ok(v) => {
                &&& size_wf(v)
                &&& raw_mant(size_str@) <= u64::MAX
                &&& size_of_text(size_str@) matches Some(t) && v.mant == t.0 && v.frac == t.1
                    && v.unit == t.2
            },
            Err(e) => {
                &&& size_of_text(size_str@) matches Some(t) ==> (raw_mant(size_str@) > u64::MAX
                    || t.1 > 6)
                &&& if num_start(size_str@, 0) is None {
                    e@ == "Invalid size format"@
                } else {
                    e@ == "Invalid number format"@
                }
            },
        },
{
    let v = chars_of(size_str);
    parse_size_chars(&v)
}

/// Parses a memory quantity; memory strings use the same
/// "`<number> <unit>?`" shape as sizes.
pub fn parse_memory(memory_str: &str) -> (r: Result<SizeValue, String>)
    ensures
        match r {
            Ok(v) => {
                &&& size_wf(v)
                &&& raw_mant(memory_str@) <= u64::MAX
                &&& size_of_text(memory_str@) matches Some(t) && v.mant == t.0 && v.frac == t.1
                    && v.unit == t.2
            },
            Err(e) => size_of_text(memory_str@) matches Some(t) ==> (raw_mant(memory_str@)
                > u64::MAX || t.1 > 6),
        },
{
    parse_size(memory_str)
}

// ---------------------------------------------------------------------------
// Plain decimal quantities (processor load)
// ---------------------------------------------------------------------------

/// A plain decimal quantity `mant / 10^frac`, as a processor-load figure.
#[derive(Clone, Copy, Debug, PartialEq, Eq, Structural)]
pub struct DecValue {
    /// Decimal mantissa.
    pub mant: u64,
    /// How many of the mantissa's digits lie behind the decimal point.
    pub frac: u8,
}

/// The bound every parsed decimal meets.
pub open spec fn dec_wf(d: DecValue) -> bool {
    d.frac <= 6
}

/// What a whole text denotes as a plain decimal: every character must be a
/// digit or a single dot, and at least one digit must be present.
pub open spec fn dec_of_text(s: Seq<char>) -> Option<(nat, nat)> {
    if s.len() > 0 && dot_count(s) <= 1 && digits_of(s).len() > 0 && (forall|j: int|
        0 <= j < s.len() ==> is_digit(#[trigger] s[j]) || s[j] == '.') {
        Some(norm_dec(dec_val(digits_of(s)), frac_count(s)))
    } else {
        None
    }
}

/// Parses a whole character vector as a plain decimal quantity.
/// `None` when the text is not a decimal, or it is too precise to hold
/// exactly.
pub fn parse_decimal_chars(s: &Vec<char>) -> (r: Option<DecValue>)
    ensures
        match r {
            Some(v) => {
                &&& dec_wf(v)
                &&& dec_val(digits_of(s@)) <= u64::MAX
                &&& dec_of_text(s@) matches Some(t) && v.mant == t.0 && v.frac == t.1
            },
            None => dec_of_text(s@) matches Some(t) ==> (dec_val(digits_of(s@)) > u64::MAX
                || t.1 > 6),
        },
{
    if s.len() == 0 {
        return None;
    }
    let mut digs: Vec<char> = Vec::new();
    let mut dots: usize = 0;
    let mut dot_idx: usize = 0;
    let mut saw_dot = false;
    let mut i: usize = 0;
    while i < s.len()
        invariant
            0 <= i <= s@.len(),
            digs@ == digits_of(s@.subrange(0, i as int)),
            dots == dot_count(s@.subrange(0, i as int)),
            saw_dot == (first_dot(s@.subrange(0, i as int), 0) is Some),
            saw_dot ==> dot_idx < i && first_dot(s@.subrange(0, i as int), 0) == Some(
                dot_idx as int,
            ),
            forall|j: int| 0 <= j < i ==> is_digit(#[trigger] s@[j]) || s@[j] == '.',
        decreases s@.len() - i,
    {
        proof {
            let pre = s@.subrange(0, i as int);
            assert(pre.push(s@[i as int]) =~= s@.subrange(0, i + 1));
            lemma_digits_push(pre, s@[i as int]);
            lemma_first_dot_push(pre, s@[i as int]);
        }
        let c = s[i];
        if c == '.' {
            dots = dots + 1;
            if !saw_dot {
                saw_dot = true;
                dot_idx = i;
            }
        } else if digit(c) {
            digs.push(c);
        } else {
            return None;
        }
        i = i + 1;
    }
    proof {
        assert(s@.subrange(0, s@.len() as int) =~= s@);
    }
    if dots > 1 || digs.len() == 0 {
        return None;
    }
    proof {
        assert(all_digits(digs@)) by {
            lemma_digits_are_digits(s@);
        };
    }
    let mant0 = match crate::text::parse_u64(&digs) {
        Some(m) => m,
        None => {
            return None;
        },
    };
    let frac0: usize = if saw_dot {
        s.len() - 1 - dot_idx
    } else {
        0
    };
    proof {
        assert(frac0 == frac_count(s@));
    }
    let mut m: u64 = mant0;
    let mut k: usize = frac0;
    while k > 0 && m % 10 == 0
        invariant
            norm_dec(mant0 as nat, frac0 as nat) == norm_dec(m as nat, k as nat),
        decreases k,
    {
        m = m / 10;
        k = k - 1;
    }
    if k > 6 {
        return None;
    }
    Some(DecValue { mant: m, frac: k as u8 })
}

/// The decimal `a` is strictly smaller than `b`.
pub open spec fn dec_lt_spec(a: DecValue, b: DecValue) -> bool {
    a.mant * pow10(b.frac as nat) < b.mant * pow10(a.frac as nat)
}

/// The decimals lie within one tenth of each other.
pub open spec fn dec_near_spec(a: DecValue, b: DecValue) -> bool {
    let x = a.mant * pow10(b.frac as nat);
    let y = b.mant * pow10(a.frac as nat);
    (if x >= y {
        x - y
    } else {
        y - x
    }) * 10 < pow10((a.frac + b.frac) as nat)
}

/// Exact `a < b` on decimals.
pub fn dec_lt(a: &DecValue, b: &DecValue) -> (r: bool)
    requires
        dec_wf(*a),
        dec_wf(*b),
    ensures
        r == dec_lt_spec(*a, *b),
{
    proof {
        lemma_pow10_bounds(a.frac as nat);
        lemma_pow10_bounds(b.frac as nat);
        lemma_pow10_bounds((a.frac + b.frac) as nat);
        lemma_dec_scale_bound(a.mant as nat, pow10(b.frac as nat));
        lemma_dec_scale_bound(b.mant as nat, pow10(a.frac as nat));
    }
    let x: u128 = (a.mant as u128) * pow10_u128(b.frac);
    let y: u128 = (b.mant as u128) * pow10_u128(a.frac);
    x < y
}

/// Whether the decimals lie within one tenth of each other — the tolerance
/// the evaluator grants percentage fields.
pub fn dec_near(a: &DecValue, b: &DecValue) -> (r: bool)
    requires
        dec_wf(*a),
        dec_wf(*b),
    ensures
        r == dec_near_spec(*a, *b),
{
    proof {
        lemma_pow10_bounds(a.frac as nat);
        lemma_pow10_bounds(b.frac as nat);
        lemma_pow10_bounds((a.frac + b.frac) as nat);
        lemma_dec_scale_bound(a.mant as nat, pow10(b.frac as nat));
        lemma_dec_scale_bound(b.mant as nat, pow10(a.frac as nat));
    }
    let x: u128 = (a.mant as u128) * pow10_u128(b.frac);
    let y: u128 = (b.mant as u128) * pow10_u128(a.frac);
    let diff: u128 = if x >= y {
        x - y
    } else {
        y - x
    };
    diff * 10 < pow10_u128(a.frac + b.frac)
}

proof fn lemma_dec_scale_bound(m: nat, p: nat)
    requires
        m <= u64::MAX,
        p <= 10000000,
    ensures
        m * p <= u64::MAX * 10000000,
        m * p * 10 <= u128::MAX,
{
    assert(m * p <= u64::MAX * 10000000) by (nonlinear_arith)
        requires
            m <= u64::MAX,
            p <= 10000000,
    ;
}

// ---------------------------------------------------------------------------
// Formatting
// ---------------------------------------------------------------------------

/// The printed name of a unit exponent, with its leading space.
pub open spec fn unit_name(u: nat) -> Seq<char> {
    if u == 0 {
        seq![' ', 'B']
    } else if u == 1 {
        seq![' ', 'K', 'B']
    } else if u == 2 {
        seq![' ', 'M', 'B']
    } else if u == 3 {
        seq![' ', 'G', 'B']
    } else {
        seq![' ', 'T', 'B']
    }
}

/// `n / d` rounded to the nearest integer, ties to even.
pub open spec fn round_half_even(n: nat, d: nat) -> nat
    recommends
        d > 0,
{
    let q = n / d;
    let r2 = 2 * (n % d);
    if r2 < d {
        q
    } else if r2 > d {
        q + 1
    } else if q % 2 == 0 {
        q
    } else {
        q + 1
    }
}

/// The unit a byte count is shown in: the largest power of 1024 at or
/// below it (5 marks a count past the table's end).
pub open spec fn size_unit_idx(b: nat) -> nat {
    if b < 1024 {
        0
    } else if b < 1048576 {
        1
    } else if b < 1073741824 {
        2
    } else if b < 1099511627776 {
        3
    } else if b < 1125899906842624 {
        4
    } else {
        5
    }
}

/// A hundredth count shown with two decimals: `c/100` then a dot and the
/// two remaining digits.
pub open spec fn centi_str(c: nat) -> Seq<char> {
    dec_str(c / 100) + seq!['.', digit_char((c / 10) % 10), digit_char(c % 10)]
}

/// How a byte count is formatted: `0 B` for zero; otherwise the count
/// scaled to its unit, written bare when the division is exact and with
/// two (half-even rounded) decimals when it is not. Counts past the table
/// are shown in TB with two decimals.
pub open spec fn format_size_spec(b: nat) -> Seq<char> {
    if b == 0 {
        seq!['0', ' ', 'B']
    } else {
        let u = size_unit_idx(b);
        if u <= 4 {
            let d = pow1024(u);
            if b % d == 0 {
                dec_str(b / d) + unit_name(u)
            } else {
                centi_str(round_half_even(b * 100, d)) + unit_name(u)
            }
        } else {
            centi_str(round_half_even(b * 100, pow1024(4))) + unit_name(4)
        }
    }
}

fn push_unit(out: &mut Vec<char>, u: u8)
    requires
        u <= 4,
    ensures
        final(out)@ == old(out)@ + unit_name(u as nat),
{
    out.push(' ');
    if u == 1 {
        out.push('K');
    } else if u == 2 {
        out.push('M');
    } else if u == 3 {
        out.push('G');
    } else if u == 4 {
        out.push('T');
    }
    if u >= 1 {
        out.push('B');
    } else {
        out.push('B');
    }
    proof {
        assert(final(out)@ =~= old(out)@ + unit_name(u as nat));
    }
}

/// Formats a byte count the way records show their sizes.
#[verifier::rlimit(50)]
pub fn format_size_chars(bytes: u64) -> (r: Vec<char>)
    ensures
        r@ == format_size_spec(bytes as nat),
{
    let mut out: Vec<char> = Vec::new();
    if bytes == 0 {
        out.push('0');
        out.push(' ');
        out.push('B');
        proof {
            assert(out@ =~= format_size_spec(0));
        }
        return out;
    }
    let u: u8 = if bytes < 1024 {
        0
    } else if bytes < 1048576 {
        1
    } else if bytes < 1073741824 {
        2
    } else if bytes < 1099511627776 {
        3
    } else if bytes < 1125899906842624 {
        4
    } else {
        5
    };
    let eu: u8 = if u <= 4 {
        u
    } else {
        4
    };
    proof {
        assert(u as nat == size_unit_idx(bytes as nat) || (u == 5 && size_unit_idx(bytes as nat)
            == 5));
    }
    let d128: u128 = pow1024_u128(eu);
    let d: u64 = d128 as u64;
    proof {
        assert(d == pow1024(eu as nat));
        assert(d >= 1);
    }
    if u <= 4 && bytes % d == 0 {
        let whole = bytes / d;
        let digits = crate::text::fmt_u64(whole);
        push_all(&mut out, &digits);
        push_unit(&mut out, u);
        proof {
            assert(out@ =~= format_size_spec(bytes as nat));
        }
        return out;
    }
    // Two-decimal form with half-even rounding, computed exactly.
    let n: u128 = (bytes as u128) * 100;
    let q: u128 = n / d128;
    let r2: u128 = 2 * (n % d128);
    let c: u128 = if r2 < d128 {
        q
    } else if r2 > d128 {
        q + 1
    } else if q % 2 == 0 {
        q
    } else {
        q + 1
    };
    proof {
        assert(c == round_half_even((bytes * 100) as nat, pow1024(eu as nat)));
        assert(q <= n);
        assert(c <= n + 1);
        assert(c / 100 <= u64::MAX) by {
            assert(c <= bytes * 100 + 1);
            assert((bytes * 100 + 1) / 100 <= bytes);
        };
    }
    let whole: u64 = (c / 100) as u64;
    let cent: u64 = (c % 100) as u64;
    proof {
        lemma_cent_digits(c as nat);
    }
    let digits = crate::text::fmt_u64(whole);
    push_all(&mut out, &digits);
    out.push('.');
    out.push(digit_char_exec((cent / 10) as u8));
    out.push(digit_char_exec((cent % 10) as u8));
    push_unit(&mut out, eu);
    proof {
        assert(out@ =~= dec_str((c / 100) as nat) + seq![
            '.',
            digit_char(((c / 10) % 10) as nat),
            digit_char((c % 10) as nat),
        ] + unit_name(eu as nat));
        assert(out@ =~= format_size_spec(bytes as nat));
    }
    out
}

/// The two final decimal digits of `c` are those of `c % 100`.
proof fn lemma_cent_digits(c: nat)
    ensures
        (c % 100) / 10 == (c / 10) % 10,
        (c % 100) % 10 == c % 10,
{
    let a = c / 100;
    let h = c % 100;
    vstd::arithmetic::div_mod::lemma_fundamental_div_mod(c as int, 100);
    assert(c == 100 * a + h);
    assert(h < 100);
    assert(c / 10 == 10 * a + h / 10) by (nonlinear_arith)
        requires
            c == 100 * a + h,
            h < 100,
    ;
    assert((10 * a + h / 10) % 10 == h / 10) by (nonlinear_arith)
        requires
            h < 100,
    ;
    assert(c % 10 == h % 10) by (nonlinear_arith)
        requires
            c == 100 * a + h,
    ;
}

/// The character of a single decimal digit.
pub fn digit_char_exec(d: u8) -> (r: char)
    requires
        d <= 9,
    ensures
        r == digit_char(d as nat),
{
    (('0' as u32) + d as u32) as u8 as char
}

/// Formats a byte count as a string, as record sizes are shown.
pub fn format_size(bytes: u64) -> (r: String)
    ensures
        r@ == format_size_spec(bytes as nat),
{
    let v = format_size_chars(bytes);
    crate::text::string_of(&v)
}

} // verus!
