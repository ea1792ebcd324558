//! The compound-condition parser: WHERE text into a flat, AND-joined list
//! of conditions.
//!
//! The text is split on case-insensitive ` AND ` boundaries (whitespace on
//! both sides); there is no OR and no grouping. Each clause is tried in
//! order as `field NOT LIKE value`, `field IS [NOT] NULL`, and
//! `field <op> value` with `op` one of `=`, `!=`, `>`, `<`, `>=`, `<=`,
//! `LIKE`. Field names are lower-cased, single quotes around values are
//! stripped, and a clause of no recognised shape fails the whole parse.

use vstd::prelude::*;
use crate::models::Condition;
use crate::size::skip_ws;
use crate::text::{
    is_space, is_word_char, lower_char, upper_char, lower_seq, trim_seq, space, word_char,
    lower_c, upper_c, trim, subvec, string_of, push_all, chars_of, lower_vec,
};

verus! {

/// The shape of one parsed clause, at specification level.
pub struct CondShape {
    pub field: Seq<char>,
    pub op: Seq<char>,
    pub value: Seq<char>,
    pub negated: bool,
}

// ---------------------------------------------------------------------------
// Splitting on AND
// ---------------------------------------------------------------------------

/// A split boundary starts at `i`: whitespace, the word `and` in any case,
/// and at least one more whitespace character.
pub open spec fn and_match(s: Seq<char>, i: int) -> bool {
    &&& 0 <= i < s.len()
    &&& is_space(s[i])
    &&& {
        let k = skip_ws(s, i);
        &&& k + 3 < s.len()
        &&& lower_char(s[k]) == 'a'
        &&& lower_char(s[k + 1]) == 'n'
        &&& lower_char(s[k + 2]) == 'd'
        &&& is_space(s[k + 3])
    }
}

/// Where the boundary starting at `i` ends: past the trailing whitespace.
pub open spec fn and_end(s: Seq<char>, i: int) -> int {
    skip_ws(s, skip_ws(s, i) + 3)
}

/// The first split boundary at or after `i`.
pub open spec fn next_and(s: Seq<char>, i: int) -> Option<int>
    decreases s.len() - i + 1,
{
    if i < 0 || i >= s.len() {
        None
    } else if and_match(s, i) {
        Some(i)
    } else {
        next_and(s, i + 1)
    }
}

proof fn lemma_skip_ws_bounds(s: Seq<char>, i: int)
    requires
        0 <= i <= s.len(),
    ensures
        i <= skip_ws(s, i) <= s.len(),
    decreases s.len() - i,
{
    if i < s.len() && is_space(s[i]) {
        lemma_skip_ws_bounds(s, i + 1);
    }
}

/// The clause texts of `s` from `from` on, split on AND boundaries.
pub open spec fn parts_from(s: Seq<char>, from: int) -> Seq<Seq<char>>
    decreases s.len() - from + 1,
{
    if from < 0 || from > s.len() {
        Seq::empty()
    } else {
        match next_and(s, from) {
            None => seq![s.subrange(from, s.len() as int)],
            Some(i) => {
                let e = and_end(s, i);
                if from <= i && i < e <= s.len() {
                    seq![s.subrange(from, i)] + parts_from(s, e)
                } else {
                    seq![s.subrange(from, s.len() as int)]
                }
            },
        }
    }
}

/// The clause texts of `s`.
pub open spec fn parts_of(s: Seq<char>) -> Seq<Seq<char>> {
    parts_from(s, 0)
}

// ---------------------------------------------------------------------------
// Classifying one clause
// ---------------------------------------------------------------------------

/// End of the word-character run starting at `i`.
pub open spec fn word_end(s: Seq<char>, i: int) -> int
    decreases s.len() - i + 1,
{
    if i < 0 || i >= s.len() {
        s.len() as int
    } else if is_word_char(s[i]) {
        word_end(s, i + 1)
    } else {
        i
    }
}

/// End of the run of comparison-operator characters starting at `i`.
pub open spec fn sym_end(s: Seq<char>, i: int) -> int
    decreases s.len() - i + 1,
{
    if i < 0 || i >= s.len() {
        s.len() as int
    } else if s[i] == '=' || s[i] == '<' || s[i] == '>' || s[i] == '!' {
        sym_end(s, i + 1)
    } else {
        i
    }
}

/// The word `w` (in any case) stands at `i` in `s`.
pub open spec fn word_at(s: Seq<char>, i: int, w: Seq<char>) -> bool {
    &&& 0 <= i
    &&& i + w.len() <= s.len()
    &&& upper_seq_eq(s.subrange(i, i + w.len()), w)
}

/// Case-insensitive equality against an upper-case word.
pub open spec fn upper_seq_eq(a: Seq<char>, w: Seq<char>) -> bool {
    a.len() == w.len() && forall|j: int| 0 <= j < a.len() ==> upper_char(a[j]) == #[trigger] w[j]
}

/// The comparison operator standing at `i`: its end and whether it is
/// `LIKE`. A run of `=`, `<`, `>`, `!` wins over `LIKE`.
pub open spec fn op_at(s: Seq<char>, i: int) -> Option<(int, bool)> {
    if 0 <= i <= s.len() {
        if sym_end(s, i) > i {
            Some((sym_end(s, i), false))
        } else if word_at(s, i, seq!['L', 'I', 'K', 'E']) {
            Some((i + 4, true))
        } else {
            None
        }
    } else {
        None
    }
}

/// The longest field-name prefix (of the word run ending at `we`) that an
/// operator follows, after optional whitespace.
pub open spec fn best_field_end(s: Seq<char>, we: int) -> Option<int>
    decreases we,
{
    if we <= 0 {
        None
    } else if op_at(s, skip_ws(s, we)) is Some {
        Some(we)
    } else {
        best_field_end(s, we - 1)
    }
}

/// Strips every leading and trailing single quote, then surrounding
/// whitespace — how a written value becomes a condition's value.
pub open spec fn value_clean(s: Seq<char>) -> Seq<char> {
    trim_seq(strip_quotes(s))
}

/// `s` with all leading and trailing single quotes removed.
pub open spec fn strip_quotes(s: Seq<char>) -> Seq<char> {
    let a = quote_start(s, 0);
    let b = quote_end(s, s.len() as int);
    if a <= b {
        s.subrange(a, b)
    } else {
        Seq::empty()
    }
}

/// First index at or after `i` that is not a single quote.
pub open spec fn quote_start(s: Seq<char>, i: int) -> int
    decreases s.len() - i + 1,
{
    if i < 0 || i >= s.len() {
        s.len() as int
    } else if s[i] == '\'' {
        quote_start(s, i + 1)
    } else {
        i
    }
}

/// One past the last index before `j` that is not a single quote.
pub open spec fn quote_end(s: Seq<char>, j: int) -> int
    decreases j,
{
    if j <= 0 || j > s.len() {
        0
    } else if s[j - 1] == '\'' {
        quote_end(s, j - 1)
    } else {
        j
    }
}

/// Classifies one (already trimmed) clause, or nothing when it has no
/// recognised shape.
pub open spec fn classify(p: Seq<char>) -> Option<CondShape> {
    match classify_not_like(p) {
        Some(c) => Some(c),
        None => match classify_is_null(p) {
            Some(c) => Some(c),
            None => match classify_is_not_null(p) {
                Some(c) => Some(c),
                None => classify_plain(p),
            },
        },
    }
}

/// `field NOT LIKE value`: a LIKE condition with `negated` set.
pub open spec fn classify_not_like(p: Seq<char>) -> Option<CondShape> {
    let we = word_end(p, 0);
    let k1 = skip_ws(p, we);
    if we > 0 && k1 > we && word_at(p, k1, seq!['N', 'O', 'T']) {
        let k2 = skip_ws(p, k1 + 3);
        if k2 > k1 + 3 && word_at(p, k2, seq!['L', 'I', 'K', 'E']) {
            let k3 = skip_ws(p, k2 + 4);
            if k3 > k2 + 4 && k3 < p.len() {
                Some(
                    CondShape {
                        field: lower_seq(p.subrange(0, we)),
                        op: seq!['L', 'I', 'K', 'E'],
                        value: value_clean(p.subrange(k3, p.len() as int)),
                        negated: true,
                    },
                )
            } else {
                None
            }
        } else {
            None
        }
    } else {
        None
    }
}

/// `field IS NULL`.
pub open spec fn classify_is_null(p: Seq<char>) -> Option<CondShape> {
    let we = word_end(p, 0);
    let k1 = skip_ws(p, we);
    if we > 0 && k1 > we && word_at(p, k1, seq!['I', 'S']) {
        let k2 = skip_ws(p, k1 + 2);
        if k2 > k1 + 2 && word_at(p, k2, seq!['N', 'U', 'L', 'L']) {
            Some(
                CondShape {
                    field: lower_seq(p.subrange(0, we)),
                    op: seq!['I', 'S'],
                    value: seq!['N', 'U', 'L', 'L'],
                    negated: false,
                },
            )
        } else {
            None
        }
    } else {
        None
    }
}

/// `field IS NOT NULL`: `IS NULL` with `negated` set.
pub open spec fn classify_is_not_null(p: Seq<char>) -> Option<CondShape> {
    let we = word_end(p, 0);
    let k1 = skip_ws(p, we);
    if we > 0 && k1 > we && word_at(p, k1, seq!['I', 'S']) {
        let k2 = skip_ws(p, k1 + 2);
        if k2 > k1 + 2 && word_at(p, k2, seq!['N', 'O', 'T']) {
            let k3 = skip_ws(p, k2 + 3);
            if k3 > k2 + 3 && word_at(p, k3, seq!['N', 'U', 'L', 'L']) {
                Some(
                    CondShape {
                        field: lower_seq(p.subrange(0, we)),
                        op: seq!['I', 'S'],
                        value: seq!['N', 'U', 'L', 'L'],
                        negated: true,
                    },
                )
            } else {
                None
            }
        } else {
            None
        }
    } else {
        None
    }
}

/// `field <op> value`: the field is the longest word prefix an operator
/// follows; the operator is a symbol run or `LIKE` (upper-cased).
pub open spec fn classify_plain(p: Seq<char>) -> Option<CondShape> {
    match best_field_end(p, word_end(p, 0)) {
        None => None,
        Some(we) => {
            let k = skip_ws(p, we);
            match op_at(p, k) {
                None => None,
                Some((oe, is_like)) => {
                    let k2 = skip_ws(p, oe);
                    if k2 < p.len() {
                        Some(
                            CondShape {
                                field: lower_seq(p.subrange(0, we)),
                                op: if is_like {
                                    seq!['L', 'I', 'K', 'E']
                                } else {
                                    p.subrange(k, oe)
                                },
                                value: value_clean(p.subrange(k2, p.len() as int)),
                                negated: false,
                            },
                        )
                    } else {
                        None
                    }
                },
            }
        },
    }
}

/// All clauses of the text, classified; `None` as soon as one clause is
/// unclassifiable. Clauses that are empty after trimming are skipped.
pub open spec fn conds_of_parts(ps: Seq<Seq<char>>) -> Option<Seq<CondShape>>
    decreases ps.len(),
{
    if ps.len() == 0 {
        Some(Seq::empty())
    } else {
        let t = trim_seq(ps[0]);
        let rest = conds_of_parts(ps.drop_first());
        if t.len() == 0 {
            rest
        } else {
            match classify(t) {
                None => None,
                Some(c) => match rest {
                    None => None,
                    Some(r) => Some(seq![c] + r),
                },
            }
        }
    }
}

/// What a WHERE text parses to, or `None` when some clause is
/// unclassifiable.
pub open spec fn conds_of_text(s: Seq<char>) -> Option<Seq<CondShape>> {
    conds_of_parts(parts_of(s))
}

/// A condition record carries exactly a clause shape.
pub open spec fn cond_matches(c: Condition, d: CondShape) -> bool {
    c.field@ == d.field && c.operator@ == d.op && c.value@ == d.value && c.negated == d.negated
}

// ---------------------------------------------------------------------------
// Executable parser
// ---------------------------------------------------------------------------

pub fn word_end_exec(p: &Vec<char>, i: usize) -> (r: usize)
    requires
        i <= p@.len(),
    ensures
        r == word_end(p@, i as int),
        i <= r <= p@.len(),
{
    let mut j = i;
    while j < p.len() && word_char(p[j])
        invariant
            i <= j <= p@.len(),
            word_end(p@, i as int) == word_end(p@, j as int),
        decreases p@.len() - j,
    {
        j = j + 1;
    }
    j
}

pub fn skip_ws_exec(p: &Vec<char>, i: usize) -> (r: usize)
    requires
        i <= p@.len(),
    ensures
        r == skip_ws(p@, i as int),
        i <= r <= p@.len(),
{
    let mut j = i;
    while j < p.len() && space(p[j])
        invariant
            i <= j <= p@.len(),
            skip_ws(p@, i as int) == skip_ws(p@, j as int),
        decreases p@.len() - j,
    {
        j = j + 1;
    }
    j
}

fn sym_end_exec(p: &Vec<char>, i: usize) -> (r: usize)
    requires
        i <= p@.len(),
    ensures
        r == sym_end(p@, i as int),
        i <= r <= p@.len(),
{
    let mut j = i;
    while j < p.len() && (p[j] == '=' || p[j] == '<' || p[j] == '>' || p[j] == '!')
        invariant
            i <= j <= p@.len(),
            sym_end(p@, i as int) == sym_end(p@, j as int),
        decreases p@.len() - j,
    {
        j = j + 1;
    }
    j
}

/// Tests a two-letter upper-case word, case-insensitively, at a position.
fn at_word2(p: &Vec<char>, i: usize, w0: char, w1: char) -> (r: bool)
    requires
        i <= p@.len(),
    ensures
        r == word_at(p@, i as int, seq![w0, w1]),
{
    if p.len() - i >= 2 {
        let ok = upper_c(p[i]) == w0 && upper_c(p[i + 1]) == w1;
        proof {
            let sub = p@.subrange(i as int, i + 2);
            let w = seq![w0, w1];
            assert(sub[0] == p@[i as int] && sub[1] == p@[i + 1]);
            if ok {
                assert forall|j: int| 0 <= j < 2 implies upper_char(sub[j]) == #[trigger] w[j] by {
                    if j == 0 {
                    } else {
                        assert(j == 1);
                    }
                }
            }
        }
        ok
    } else {
        false
    }
}

/// Tests a three-letter upper-case word, case-insensitively, at a position.
fn at_word3(p: &Vec<char>, i: usize, w0: char, w1: char, w2: char) -> (r: bool)
    requires
        i <= p@.len(),
    ensures
        r == word_at(p@, i as int, seq![w0, w1, w2]),
{
    if p.len() - i >= 3 {
        let ok = upper_c(p[i]) == w0 && upper_c(p[i + 1]) == w1 && upper_c(p[i + 2]) == w2;
        proof {
            let sub = p@.subrange(i as int, i + 3);
            let w = seq![w0, w1, w2];
            assert(sub[0] == p@[i as int] && sub[1] == p@[i + 1] && sub[2] == p@[i + 2]);
            if ok {
                assert forall|j: int| 0 <= j < 3 implies upper_char(sub[j]) == #[trigger] w[j] by {
                    if j == 0 {
                    } else if j == 1 {
                    } else {
                        assert(j == 2);
                    }
                }
            }
        }
        ok
    } else {
        false
    }
}

/// Tests a four-letter upper-case word, case-insensitively, at a position.
fn at_word4(p: &Vec<char>, i: usize, w0: char, w1: char, w2: char, w3: char) -> (r: bool)
    requires
        i <= p@.len(),
    ensures
        r == word_at(p@, i as int, seq![w0, w1, w2, w3]),
{
    if p.len() - i >= 4 {
        let ok = upper_c(p[i]) == w0 && upper_c(p[i + 1]) == w1 && upper_c(p[i + 2]) == w2
            && upper_c(p[i + 3]) == w3;
        proof {
            let sub = p@.subrange(i as int, i + 4);
            let w = seq![w0, w1, w2, w3];
            assert(sub[0] == p@[i as int] && sub[1] == p@[i + 1] && sub[2] == p@[i + 2] && sub[3]
                == p@[i + 3]);
            if ok {
                assert forall|j: int| 0 <= j < 4 implies upper_char(sub[j]) == #[trigger] w[j] by {
                    if j == 0 {
                    } else if j == 1 {
                    } else if j == 2 {
                    } else {
                        assert(j == 3);
                    }
                }
            }
        }
        ok
    } else {
        false
    }
}

/// Strips all leading and trailing single quotes.
fn strip_quotes_exec(v: &Vec<char>) -> (r: Vec<char>)
    ensures
        r@ == strip_quotes(v@),
{
    let mut a: usize = 0;
    while a < v.len() && v[a] == '\''
        invariant
            0 <= a <= v@.len(),
            quote_start(v@, 0) == quote_start(v@, a as int),
        decreases v@.len() - a,
    {
        a = a + 1;
    }
    proof {
        assert(quote_start(v@, a as int) == a as int);
    }
    let mut b: usize = v.len();
    while b > 0 && v[b - 1] == '\''
        invariant
            0 <= b <= v@.len(),
            quote_end(v@, v@.len() as int) == quote_end(v@, b as int),
        decreases b,
    {
        b = b - 1;
    }
    proof {
        assert(quote_end(v@, b as int) == b as int);
    }
    if b <= a {
        let r: Vec<char> = Vec::new();
        proof {
            assert(strip_quotes(v@) =~= Seq::<char>::empty() || strip_quotes(v@) =~= v@.subrange(
                quote_start(v@, 0),
                quote_end(v@, v@.len() as int),
            ));
            if quote_start(v@, 0) <= quote_end(v@, v@.len() as int) {
                assert(strip_quotes(v@) =~= Seq::<char>::empty());
            }
        }
        r
    } else {
        subvec(v, a, b)
    }
}

/// Strips quotes, then whitespace, from `t[from..]`: a clause value.
fn value_clean_exec(t: &Vec<char>, from: usize) -> (r: Vec<char>)
    requires
        from <= t@.len(),
    ensures
        r@ == value_clean(t@.subrange(from as int, t@.len() as int)),
{
    let tail = subvec(t, from, t.len());
    let unq = strip_quotes_exec(&tail);
    trim(&unq)
}

/// The clause shape a condition record was built from.
pub open spec fn shape_of(c: Condition) -> CondShape {
    CondShape { field: c.field@, op: c.operator@, value: c.value@, negated: c.negated }
}

/// The shapes of a list of condition records.
pub open spec fn shapes_of(cs: Seq<Condition>) -> Seq<CondShape> {
    cs.map_values(|c: Condition| shape_of(c))
}

fn classify_not_like_exec(t: &Vec<char>) -> (r: Option<Condition>)
    ensures
        match r {
            Some(c) => classify_not_like(t@) == Some(shape_of(c)),
            None => classify_not_like(t@) is None,
        },
{
    let we = word_end_exec(t, 0);
    if we == 0 {
        return None;
    }
    let k1 = skip_ws_exec(t, we);
    if k1 == we || !at_word3(t, k1, 'N', 'O', 'T') {
        return None;
    }
    let n = t.len();
    proof {
        assert(k1 + 3 <= n as int) by {
            assert(word_at(t@, k1 as int, seq!['N', 'O', 'T']));
        };
    }
    let k2 = skip_ws_exec(t, k1 + 3);
    if k2 == k1 + 3 || !at_word4(t, k2, 'L', 'I', 'K', 'E') {
        return None;
    }
    proof {
        assert(k2 + 4 <= n as int) by {
            assert(word_at(t@, k2 as int, seq!['L', 'I', 'K', 'E']));
        };
    }
    let k3 = skip_ws_exec(t, k2 + 4);
    if k3 == k2 + 4 || k3 >= t.len() {
        return None;
    }
    let field = lower_vec(&subvec(t, 0, we));
    let value = value_clean_exec(t, k3);
    proof {
        reveal_strlit("LIKE");
        assert("LIKE"@ =~= seq!['L', 'I', 'K', 'E']);
    }
    Some(
        Condition {
            field: string_of(&field),
            operator: crate::text::string_of(&chars_of("LIKE")),
            value: string_of(&value),
            negated: true,
        },
    )
}

fn classify_is_null_exec(t: &Vec<char>) -> (r: Option<Condition>)
    ensures
        match r {
            Some(c) => classify_is_null(t@) == Some(shape_of(c)),
            None => classify_is_null(t@) is None,
        },
{
    let we = word_end_exec(t, 0);
    if we == 0 {
        return None;
    }
    let k1 = skip_ws_exec(t, we);
    if k1 == we || !at_word2(t, k1, 'I', 'S') {
        return None;
    }
    let n = t.len();
    proof {
        assert(k1 + 2 <= n as int) by {
            assert(word_at(t@, k1 as int, seq!['I', 'S']));
        };
    }
    let k2 = skip_ws_exec(t, k1 + 2);
    if k2 == k1 + 2 || !at_word4(t, k2, 'N', 'U', 'L', 'L') {
        return None;
    }
    let field = lower_vec(&subvec(t, 0, we));
    proof {
        reveal_strlit("IS");
        reveal_strlit("NULL");
        assert("IS"@ =~= seq!['I', 'S']);
        assert("NULL"@ =~= seq!['N', 'U', 'L', 'L']);
    }
    Some(
        Condition {
            field: string_of(&field),
            operator: crate::text::string_of(&chars_of("IS")),
            value: crate::text::string_of(&chars_of("NULL")),
            negated: false,
        },
    )
}

fn classify_is_not_null_exec(t: &Vec<char>) -> (r: Option<Condition>)
    ensures
        match r {
            Some(c) => classify_is_not_null(t@) == Some(shape_of(c)),
            None => classify_is_not_null(t@) is None,
        },
{
    let we = word_end_exec(t, 0);
    if we == 0 {
        return None;
    }
    let k1 = skip_ws_exec(t, we);
    if k1 == we || !at_word2(t, k1, 'I', 'S') {
        return None;
    }
    let n = t.len();
    proof {
        assert(k1 + 2 <= n as int) by {
            assert(word_at(t@, k1 as int, seq!['I', 'S']));
        };
    }
    let k2 = skip_ws_exec(t, k1 + 2);
    if k2 == k1 + 2 || !at_word3(t, k2, 'N', 'O', 'T') {
        return None;
    }
    proof {
        assert(k2 + 3 <= n as int) by {
            assert(word_at(t@, k2 as int, seq!['N', 'O', 'T']));
        };
    }
    let k3 = skip_ws_exec(t, k2 + 3);
    if k3 == k2 + 3 || !at_word4(t, k3, 'N', 'U', 'L', 'L') {
        return None;
    }
    let field = lower_vec(&subvec(t, 0, we));
    proof {
        reveal_strlit("IS");
        reveal_strlit("NULL");
        assert("IS"@ =~= seq!['I', 'S']);
        assert("NULL"@ =~= seq!['N', 'U', 'L', 'L']);
    }
    Some(
        Condition {
            field: string_of(&field),
            operator: crate::text::string_of(&chars_of("IS")),
            value: crate::text::string_of(&chars_of("NULL")),
            negated: true,
        },
    )
}

fn best_we_exec(t: &Vec<char>, we: usize) -> (r: Option<usize>)
    requires
        we <= t@.len(),
    ensures
        match r {
            Some(w) => {
                &&& best_field_end(t@, we as int) == Some(w as int)
                &&& 0 < w <= we
                &&& op_at(t@, skip_ws(t@, w as int)) is Some
            },
            None => best_field_end(t@, we as int) is None,
        },
    decreases we,
{
    if we == 0 {
        return None;
    }
    let k = skip_ws_exec(t, we);
    let se = sym_end_exec(t, k);
    if se > k || at_word4(t, k, 'L', 'I', 'K', 'E') {
        Some(we)
    } else {
        proof {
            assert(op_at(t@, k as int) is None);
        }
        best_we_exec(t, we - 1)
    }
}

fn classify_plain_exec(t: &Vec<char>) -> (r: Option<Condition>)
    ensures
        match r {
            Some(c) => classify_plain(t@) == Some(shape_of(c)),
            None => classify_plain(t@) is None,
        },
{
    let we0 = word_end_exec(t, 0);
    let we = match best_we_exec(t, we0) {
        Some(w) => w,
        None => {
            return None;
        },
    };
    let k = skip_ws_exec(t, we);
    let se = sym_end_exec(t, k);
    let is_like = !(se > k);
    let n = t.len();
    let oe: usize = if se > k {
        se
    } else {
        proof {
            assert(word_at(t@, k as int, seq!['L', 'I', 'K', 'E'])) by {
                assert(op_at(t@, k as int) is Some);
            };
            assert(k + 4 <= n as int);
        }
        k + 4
    };
    let k2 = skip_ws_exec(t, oe);
    if k2 >= t.len() {
        return None;
    }
    let field = lower_vec(&subvec(t, 0, we));
    let value = value_clean_exec(t, k2);
    let op: String = if is_like {
        proof {
            reveal_strlit("LIKE");
            assert("LIKE"@ =~= seq!['L', 'I', 'K', 'E']);
        }
        crate::text::string_of(&chars_of("LIKE"))
    } else {
        string_of(&subvec(t, k, oe))
    };
    Some(
        Condition {
            field: string_of(&field),
            operator: op,
            value: string_of(&value),
            negated: false,
        },
    )
}

fn classify_exec(t: &Vec<char>) -> (r: Option<Condition>)
    ensures
        match r {
            Some(c) => classify(t@) == Some(shape_of(c)),
            None => classify(t@) is None,
        },
{
    match classify_not_like_exec(t) {
        Some(c) => Some(c),
        None => match classify_is_null_exec(t) {
            Some(c) => Some(c),
            None => match classify_is_not_null_exec(t) {
                Some(c) => Some(c),
                None => classify_plain_exec(t),
            },
        },
    }
}

/// Finds the next AND boundary at or after `from`: its start and its end.
fn find_next_and(v: &Vec<char>, from: usize) -> (r: Option<(usize, usize)>)
    requires
        from <= v@.len(),
    ensures
        match r {
            Some(ie) => {
                &&& next_and(v@, from as int) == Some(ie.0 as int)
                &&& ie.1 == and_end(v@, ie.0 as int)
                &&& from <= ie.0
                &&& ie.0 + 5 <= ie.1 <= v@.len()
            },
            None => next_and(v@, from as int) is None,
        },
{
    let mut i: usize = from;
    loop
        invariant
            from <= i <= v@.len(),
            next_and(v@, from as int) == next_and(v@, i as int),
        decreases v@.len() - i,
    {
        if i >= v.len() {
            return None;
        }
        if space(v[i]) {
            let k = skip_ws_exec(v, i);
            if k < v.len() && v.len() - k > 3 {
                if lower_c(v[k]) == 'a' && lower_c(v[k + 1]) == 'n' && lower_c(v[k + 2]) == 'd'
                    && space(v[k + 3]) {
                    proof {
                        assert(and_match(v@, i as int));
                        assert(skip_ws(v@, i as int) == k as int);
                    }
                    let e = skip_ws_exec(v, k + 3);
                    proof {
                        assert(skip_ws(v@, k + 3) >= k + 4) by {
                            assert(is_space(v@[k + 3]));
                            assert(skip_ws(v@, k + 3) == skip_ws(v@, k + 4));
                            lemma_skip_ws_bounds(v@, k + 4);
                        };
                        assert(k as int >= i + 1) by {
                            assert(is_space(v@[i as int]));
                            assert(skip_ws(v@, i as int) == skip_ws(v@, i + 1));
                            lemma_skip_ws_bounds(v@, i + 1);
                        };
                    }
                    return Some((i, e));
                }
            }
        }
        proof {
            assert(!and_match(v@, i as int));
        }
        i = i + 1;
    }
}

/// Parses a WHERE text into its flat, AND-joined condition list.
///
/// Every clause must classify as one of the recognised shapes; a clause
/// that does not fails the whole parse with a message naming it. Clauses
/// that are empty after trimming are skipped.
pub fn parse_compound_conditions(where_clause: &str) -> (r: Result<Vec<Condition>, String>)
    ensures
        match r {
            Ok(cs) => conds_of_text(where_clause@) == Some(shapes_of(cs@)),
            Err(e) => {
                &&& conds_of_text(where_clause@) is None
                &&& exists|i: int|
                    {
                        &&& 0 <= i < parts_of(where_clause@).len()
                        &&& classify(trim_seq(#[trigger] parts_of(where_clause@)[i])) is None
                        &&& e@ == "Invalid condition: "@ + trim_seq(parts_of(where_clause@)[i])
                    }
            },
        },
{
    let v = chars_of(where_clause);
    let mut out: Vec<Condition> = Vec::new();
    let mut from: usize = 0;
    let ghost mut seen: Seq<Seq<char>> = Seq::empty();
    loop
        invariant
            from <= v@.len(),
            v@ == where_clause@,
            parts_of(v@) =~= seen + parts_from(v@, from as int),
            match conds_of_parts(parts_from(v@, from as int)) {
                Some(rest) => conds_of_text(v@) == Some(shapes_of(out@) + rest),
                None => conds_of_text(v@) is None,
            },
        decreases v@.len() - from,
    {
        let next = find_next_and(&v, from);
        let part_end: usize = match next {
            Some(ie) => ie.0,
            None => v.len(),
        };
        let part = subvec(&v, from, part_end);
        let t = trim(&part);
        let ghost tail = match next_and(v@, from as int) {
            Some(i) => parts_from(v@, and_end(v@, i)),
            None => Seq::<Seq<char>>::empty(),
        };
        proof {
            if next_and(v@, from as int) is None {
                assert(parts_from(v@, from as int) =~= seq![part@]);
                assert(parts_from(v@, from as int) =~= seq![part@] + tail);
            } else {
                assert(parts_from(v@, from as int) =~= seq![part@] + tail);
            }
            assert((seq![part@] + tail)[0] == part@);
            assert((seq![part@] + tail).drop_first() =~= tail);
        }
        // Classify this clause, or fail the whole parse.
        let keep: Option<Condition> = if t.len() == 0 {
            proof {
                assert(conds_of_parts(parts_from(v@, from as int)) == conds_of_parts(tail));
            }
            None
        } else {
            match classify_exec(&t) {
                Some(c) => {
                    proof {
                        assert(classify(trim_seq(part@)) == Some(shape_of(c)));
                    }
                    Some(c)
                },
                None => {
                    proof {
                        assert(conds_of_parts(parts_from(v@, from as int)) is None);
                        assert(conds_of_text(v@) is None);
                        assert(parts_of(v@)[seen.len() as int] == part@);
                    }
                    let mut msg = chars_of("Invalid condition: ");
                    push_all(&mut msg, &t);
                    let e = string_of(&msg);
                    proof {
                        let wit = seen.len() as int;
                        assert(0 <= wit < parts_of(where_clause@).len());
                        assert(classify(trim_seq(parts_of(where_clause@)[wit])) is None);
                        assert(e@ == "Invalid condition: "@ + trim_seq(
                            parts_of(where_clause@)[wit],
                        ));
                    }
                    return Err(e);
                },
            }
        };
        let ghost old_out = out@;
        match keep {
            Some(c) => {
                out.push(c);
                proof {
                    assert(shapes_of(out@) =~= shapes_of(old_out) + seq![shape_of(c)]);
                    match conds_of_parts(tail) {
                        Some(rest) => {
                            assert(conds_of_parts(parts_from(v@, from as int)) == Some(
                                seq![shape_of(c)] + rest,
                            ));
                            assert(shapes_of(old_out) + (seq![shape_of(c)] + rest) =~= shapes_of(
                                out@,
                            ) + rest);
                        },
                        None => {},
                    }
                }
            },
            None => {},
        }
        match next {
            Some(ie) => {
                proof {
                    seen = seen + seq![part@];
                }
                from = ie.1;
            },
            None => {
                // This was the last clause.
                proof {
                    assert(conds_of_parts(tail) == Some(Seq::<CondShape>::empty()));
                    assert(shapes_of(out@) + Seq::<CondShape>::empty() =~= shapes_of(out@));
                }
                return Ok(out);
            },
        }
    }
}

} // verus!
