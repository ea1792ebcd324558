//! The query grammar parser: query text into a structured query.
//!
//! Reserved keywords are first upper-cased wherever they occur as whole
//! words, so the surface language is case-insensitive while the grammar
//! below handles one case. Two top forms are read:
//! `SELECT [DISTINCT] fields FROM target [WHERE cond] [ORDER BY field
//! [ASC|DESC]] [LIMIT n]` and `DELETE FROM target [WHERE cond]`. The WHERE
//! text is located but handed on unparsed; clause keywords inside single
//! quotes do not end it.

use vstd::prelude::*;
use crate::condition::{word_end, strip_quotes, quote_start, quote_end};
use crate::models::{QueryType, SortDirection, SqlQuery};
use crate::size::skip_ws;
use crate::text::{
    is_word_char, is_space, upper_seq, trim_seq, all_digits, dec_val, contains_seq, find_at,
    chars_of, chars_eq, match_at, subvec, trim, upper_vec, push_all, string_of, space,
    word_char, parse_usize, find_from, is_at,
};

verus! {

// ---------------------------------------------------------------------------
// Keyword upper-casing
// ---------------------------------------------------------------------------

/// Whether a word is one of the grammar's reserved keywords, in any case.
pub open spec fn is_keyword(w: Seq<char>) -> bool {
    let u = upper_seq(w);
    ||| u == "SELECT"@
    ||| u == "FROM"@
    ||| u == "WHERE"@
    ||| u == "DELETE"@
    ||| u == "ORDER"@
    ||| u == "BY"@
    ||| u == "LIMIT"@
    ||| u == "AND"@
    ||| u == "AS"@
    ||| u == "LIKE"@
    ||| u == "NOT"@
    ||| u == "EXISTS"@
    ||| u == "IN"@
    ||| u == "DISTINCT"@
    ||| u == "IS"@
    ||| u == "NULL"@
}

/// The text from `i` on with every whole word that is a keyword
/// upper-cased and every other character kept.
pub open spec fn ukw_from(s: Seq<char>, i: int) -> Seq<char>
    decreases s.len() - i + 1,
{
    if i < 0 || i >= s.len() {
        Seq::empty()
    } else if is_word_char(s[i]) && i < word_end(s, i) <= s.len() {
        let e = word_end(s, i);
        let w = s.subrange(i, e);
        (if is_keyword(w) {
            upper_seq(w)
        } else {
            w
        }) + ukw_from(s, e)
    } else {
        seq![s[i]] + ukw_from(s, i + 1)
    }
}

/// The whole text with keywords upper-cased.
pub open spec fn upper_keywords_spec(s: Seq<char>) -> Seq<char> {
    ukw_from(s, 0)
}

// ---------------------------------------------------------------------------
// Locating clause keywords
// ---------------------------------------------------------------------------

/// The keyword `w` stands at `i` as a whole word.
pub open spec fn kw_boundary_at(p: Seq<char>, i: int, w: Seq<char>) -> bool {
    &&& 0 <= i
    &&& i + w.len() <= p.len()
    &&& p.subrange(i, i + w.len()) == w
    &&& (i == 0 || !is_word_char(p[i - 1]))
    &&& (i + w.len() == p.len() || !is_word_char(p[i + w.len()]))
}

/// The first whole-word occurrence of `w` at or after `i` that does not
/// lie inside a single-quoted span (`inq` carries the quote state).
pub open spec fn find_kw(p: Seq<char>, i: int, w: Seq<char>, inq: bool) -> Option<int>
    decreases p.len() - i + 1,
{
    if i < 0 || i >= p.len() {
        None
    } else if p[i] == '\'' {
        find_kw(p, i + 1, w, !inq)
    } else if !inq && kw_boundary_at(p, i, w) {
        Some(i)
    } else {
        find_kw(p, i + 1, w, inq)
    }
}

// ---------------------------------------------------------------------------
// Shapes: what the grammar reads out of the text
// ---------------------------------------------------------------------------

/// What a well-formed SELECT query carries, at specification level; the
/// field list is already expanded when it was a bare `*`.
pub struct SelShape {
    pub distinct: bool,
    pub fields: Seq<Seq<char>>,
    pub aliases: Seq<Option<Seq<char>>>,
    pub from_path: Seq<char>,
    pub where_clause: Option<Seq<char>>,
    pub order_by: Option<Seq<char>>,
    pub descending: bool,
    pub limit: Option<nat>,
}

/// What a well-formed DELETE query carries.
pub struct DelShape {
    pub from_path: Seq<char>,
    pub where_clause: Option<Seq<char>>,
}

/// The outcome of parsing a query text.
pub enum ParseShape {
    /// The text fits no recognised form.
    Invalid,
    /// The text is a SELECT with a LIMIT too large to hold.
    BadLimit,
    Sel(SelShape),
    Del(DelShape),
}

/// The default column set of each source, chosen by the FROM target.
pub open spec fn default_fields(path: Seq<char>) -> Seq<Seq<char>> {
    if path == "ps"@ {
        seq!["pid"@, "name"@, "cpu_usage"@, "memory_usage"@, "status"@]
    } else if path == "net"@ {
        seq!["name"@, "port"@, "pid"@]
    } else if path == "applications"@ {
        seq!["name"@, "version"@, "path"@, "size"@, "category"@]
    } else {
        seq!["name"@, "type"@, "modified_date"@, "permissions"@, "size"@, "path"@]
    }
}

/// Splits a field list on commas.
pub open spec fn split_commas(s: Seq<char>, from: int) -> Seq<Seq<char>>
    decreases s.len() - from + 1,
{
    if from < 0 || from > s.len() {
        Seq::empty()
    } else {
        match find_at(s, seq![','], from) {
            Some(j) => if from <= j < s.len() {
                seq![s.subrange(from, j)] + split_commas(s, j + 1)
            } else {
                seq![s.subrange(from, s.len() as int)]
            },
            None => seq![s.subrange(from, s.len() as int)],
        }
    }
}

/// One field of a SELECT list: an identifier with an optional
/// `AS identifier` alias; anything else is malformed.
pub open spec fn field_of(part: Seq<char>) -> Option<(Seq<char>, Option<Seq<char>>)> {
    let t = trim_seq(part);
    let we = word_end(t, 0);
    if we <= 0 {
        None
    } else if we == t.len() {
        Some((t.subrange(0, we), None))
    } else {
        let k = skip_ws(t, we);
        if k > we && kw_boundary_at(t, k, "AS"@) {
            let k2 = skip_ws(t, k + 2);
            if k2 > k + 2 && k2 < t.len() {
                let we2 = word_end(t, k2);
                if we2 > k2 && we2 == t.len() {
                    Some((t.subrange(0, we), Some(t.subrange(k2, we2))))
                } else {
                    None
                }
            } else {
                None
            }
        } else {
            None
        }
    }
}

/// All fields of a comma-separated list, or `None` when one is malformed.
pub open spec fn fields_of(parts: Seq<Seq<char>>) -> Option<Seq<(Seq<char>, Option<Seq<char>>)>>
    decreases parts.len(),
{
    if parts.len() == 0 {
        Some(Seq::empty())
    } else {
        match field_of(parts[0]) {
            None => None,
            Some(f) => match fields_of(parts.drop_first()) {
                None => None,
                Some(r) => Some(seq![f] + r),
            },
        }
    }
}

/// The FROM target written at `i`: a quoted token runs to its closing
/// quote, any other token to the next whitespace. Quotes around the token
/// are stripped. Returns the stripped target and the index past the token.
pub open spec fn path_token(p: Seq<char>, i: int) -> (Seq<char>, int) {
    if 0 <= i < p.len() && p[i] == '\'' {
        match find_at(p, seq!['\''], i + 1) {
            Some(j) => (strip_quotes(p.subrange(i, j + 1)), j + 1),
            None => (strip_quotes(p.subrange(i, ws_end_tok(p, i))), ws_end_tok(p, i)),
        }
    } else {
        (strip_quotes(p.subrange(i, ws_end_tok(p, i))), ws_end_tok(p, i))
    }
}

/// End of the non-whitespace run starting at `i`.
pub open spec fn ws_end_tok(p: Seq<char>, i: int) -> int
    decreases p.len() - i + 1,
{
    if i < 0 || i >= p.len() {
        p.len() as int
    } else if !is_space(p[i]) {
        ws_end_tok(p, i + 1)
    } else {
        i
    }
}

/// How an ORDER BY clause text is read: a clause whose upper-cased text
/// holds ` DESC` sorts descending and keeps the text before the first
/// literal ` DESC`; likewise for ` ASC` ascending; otherwise the whole
/// clause ascending. The kept text, trimmed, names the field.
pub open spec fn order_of_clause(c: Seq<char>) -> (Seq<char>, bool) {
    if contains_seq(upper_seq(c), " DESC"@) {
        (trim_seq(cut_before(c, " DESC"@)), true)
    } else if contains_seq(upper_seq(c), " ASC"@) {
        (trim_seq(cut_before(c, " ASC"@)), false)
    } else {
        (trim_seq(c), false)
    }
}

/// The text before the first occurrence of `w`, or all of it.
pub open spec fn cut_before(c: Seq<char>, w: Seq<char>) -> Seq<char> {
    match find_at(c, w, 0) {
        Some(i) => c.subrange(0, i),
        None => c,
    }
}

/// Everything a SELECT text parses to, step by step over the processed
/// (keyword-upper-cased) text `p`; `Invalid` at the first malformed piece.
pub open spec fn parse_select_spec(p: Seq<char>, orig: Seq<char>) -> ParseShape {
    let a = skip_ws(p, 0);
    if !kw_boundary_at(p, a, "SELECT"@) {
        ParseShape::Invalid
    } else {
        let b = skip_ws(p, a + 6);
        if b == a + 6 && b < p.len() {
            ParseShape::Invalid
        } else {
            let fs = if kw_boundary_at(p, b, "DISTINCT"@) {
                skip_ws(p, b + 8)
            } else {
                b
            };
            match find_kw(p, fs, "FROM"@, false) {
                None => ParseShape::Invalid,
                Some(fi) => {
                    if fi < fs {
                        ParseShape::Invalid
                    } else {
                        let ftext = trim_seq(p.subrange(fs, fi));
                        let ps = skip_ws(p, fi + 4);
                        let pt = path_token(p, ps);
                        if pt.0.len() == 0 {
                            ParseShape::Invalid
                        } else {
                            parse_select_tail(p, orig, ftext, pt.0, pt.1)
                        }
                    }
                },
            }
        }
    }
}

/// The optional WHERE, ORDER BY and LIMIT clauses after the target, and
/// the assembled shape.
pub open spec fn parse_select_tail(
    p: Seq<char>,
    orig: Seq<char>,
    ftext: Seq<char>,
    path: Seq<char>,
    after_path: int,
) -> ParseShape {
    let r = skip_ws(p, after_path);
    let wtext = if kw_boundary_at(p, r, "WHERE"@) {
        let ws = skip_ws(p, r + 5);
        let oend = clause_end(p, ws);
        Some(trim_seq(p.subrange(ws, oend)))
    } else {
        None
    };
    let after_where = if kw_boundary_at(p, r, "WHERE"@) {
        clause_end(p, skip_ws(p, r + 5))
    } else {
        r
    };
    let r2 = skip_ws(p, after_where);
    if has_order(p, r2) {
        let os = skip_ws(p, skip_ws(p, r2 + 5) + 2);
        let oe = limit_or_end(p, os);
        let oc = order_of_clause(p.subrange(os, oe));
        finish_select(p, orig, ftext, path, wtext, Some(oc.0), oc.1, skip_ws(p, oe))
    } else {
        finish_select(p, orig, ftext, path, wtext, None, false, r2)
    }
}

/// `ORDER` followed by `BY` stands at `i`.
pub open spec fn has_order(p: Seq<char>, i: int) -> bool {
    kw_boundary_at(p, i, "ORDER"@) && skip_ws(p, i + 5) > i + 5 && kw_boundary_at(
        p,
        skip_ws(p, i + 5),
        "BY"@,
    )
}

/// Where a WHERE clause's text ends: at the first unquoted ORDER or
/// LIMIT keyword, or at the end of the text.
pub open spec fn clause_end(p: Seq<char>, i: int) -> int {
    let o = find_kw(p, i, "ORDER"@, false);
    let l = find_kw(p, i, "LIMIT"@, false);
    match (o, l) {
        (Some(oi), Some(li)) => if oi <= li {
            oi
        } else {
            li
        },
        (Some(oi), None) => oi,
        (None, Some(li)) => li,
        (None, None) => p.len() as int,
    }
}

/// Where an ORDER BY clause's text ends: at the first unquoted LIMIT, or
/// at the end of the text.
pub open spec fn limit_or_end(p: Seq<char>, i: int) -> int {
    match find_kw(p, i, "LIMIT"@, false) {
        Some(li) => li,
        None => p.len() as int,
    }
}

/// Reads the optional LIMIT clause at `i` and assembles the SELECT shape.
pub open spec fn finish_select(
    p: Seq<char>,
    orig: Seq<char>,
    ftext: Seq<char>,
    path: Seq<char>,
    wtext: Option<Seq<char>>,
    otext: Option<Seq<char>>,
    descending: bool,
    i: int,
) -> ParseShape {
    if kw_boundary_at(p, i, "LIMIT"@) {
        let ntext = trim_seq(p.subrange(i + 5, p.len() as int));
        if ntext.len() > 0 && all_digits(ntext) {
            if dec_val(ntext) <= usize::MAX {
                assemble_select(orig, ftext, path, wtext, otext, descending, Some(dec_val(ntext)))
            } else {
                ParseShape::BadLimit
            }
        } else {
            ParseShape::Invalid
        }
    } else if i == p.len() {
        assemble_select(orig, ftext, path, wtext, otext, descending, None)
    } else {
        ParseShape::Invalid
    }
}

/// Expands the field list (a bare `*` becomes the target's default column
/// set) and builds the final shape.
pub open spec fn assemble_select(
    orig: Seq<char>,
    ftext: Seq<char>,
    path: Seq<char>,
    wtext: Option<Seq<char>>,
    otext: Option<Seq<char>>,
    descending: bool,
    limit: Option<nat>,
) -> ParseShape {
    let distinct = contains_seq(upper_seq(orig), "DISTINCT"@);
    if ftext == "*"@ {
        let fs = default_fields(path);
        ParseShape::Sel(
            SelShape {
                distinct,
                fields: fs,
                aliases: Seq::new(fs.len(), |i: int| None),
                from_path: path,
                where_clause: wtext,
                order_by: otext,
                descending,
                limit,
            },
        )
    } else {
        match fields_of(split_commas(ftext, 0)) {
            None => ParseShape::Invalid,
            Some(fl) => ParseShape::Sel(
                SelShape {
                    distinct,
                    fields: Seq::new(fl.len(), |i: int| fl[i].0),
                    aliases: Seq::new(fl.len(), |i: int| fl[i].1),
                    from_path: path,
                    where_clause: wtext,
                    order_by: otext,
                    descending,
                    limit,
                },
            ),
        }
    }
}

/// Everything a DELETE text parses to over the processed text `p`.
pub open spec fn parse_delete_spec(p: Seq<char>) -> ParseShape {
    let a = skip_ws(p, 0);
    if !kw_boundary_at(p, a, "DELETE"@) {
        ParseShape::Invalid
    } else {
        let b = skip_ws(p, a + 6);
        if !(b > a + 6 && kw_boundary_at(p, b, "FROM"@)) {
            ParseShape::Invalid
        } else {
            let ps = skip_ws(p, b + 4);
            let pt = path_token(p, ps);
            if pt.0.len() == 0 {
                ParseShape::Invalid
            } else {
                let r = skip_ws(p, pt.1);
                if kw_boundary_at(p, r, "WHERE"@) {
                    let ws = skip_ws(p, r + 5);
                    ParseShape::Del(
                        DelShape {
                            from_path: pt.0,
                            where_clause: Some(
                                trim_seq(p.subrange(ws, p.len() as int)),
                            ),
                        },
                    )
                } else if r == p.len() {
                    ParseShape::Del(DelShape { from_path: pt.0, where_clause: None })
                } else {
                    ParseShape::Invalid
                }
            }
        }
    }
}

/// What a whole query text parses to: the SELECT form, the DELETE form,
/// or nothing.
pub open spec fn parse_spec(orig: Seq<char>) -> ParseShape {
    let p = upper_keywords_spec(orig);
    let a = skip_ws(p, 0);
    if kw_boundary_at(p, a, "SELECT"@) {
        parse_select_spec(p, orig)
    } else if kw_boundary_at(p, a, "DELETE"@) {
        parse_delete_spec(p)
    } else {
        ParseShape::Invalid
    }
}

/// The query record carries exactly the SELECT shape.
pub open spec fn query_matches_sel(q: SqlQuery, s: SelShape) -> bool {
    &&& q.query_type == QueryType::Select
    &&& q.distinct == s.distinct
    &&& q.select_fields@.len() == s.fields.len()
    &&& forall|i: int| 0 <= i < s.fields.len() ==> q.select_fields@[i]@ == s.fields[i]
    &&& q.select_field_aliases@.len() == s.aliases.len()
    &&& forall|i: int|
        0 <= i < s.aliases.len() ==> match (#[trigger] q.select_field_aliases@[i], s.aliases[i]) {
            (Option::Some(a), Option::Some(b)) => a@ == b,
            (Option::None, Option::None) => true,
            _ => false,
        }
    &&& q.select_subqueries@.len() == 0
    &&& q.from_path@ == s.from_path
    &&& match (q.where_clause, s.where_clause) {
        (Option::Some(a), Option::Some(b)) => a@ == b,
        (Option::None, Option::None) => true,
        _ => false,
    }
    &&& q.where_subqueries@.len() == 0
    &&& match (q.order_by, s.order_by) {
        (Option::Some(a), Option::Some(b)) => a@ == b,
        (Option::None, Option::None) => true,
        _ => false,
    }
    &&& q.order_direction == (if s.descending {
        SortDirection::Descending
    } else {
        SortDirection::Ascending
    })
    &&& match (q.limit, s.limit) {
        (Option::Some(a), Option::Some(b)) => a as nat == b,
        (Option::None, Option::None) => true,
        _ => false,
    }
}

/// The query record carries exactly the DELETE shape.
pub open spec fn query_matches_del(q: SqlQuery, d: DelShape) -> bool {
    &&& q.query_type == QueryType::Delete
    &&& !q.distinct
    &&& q.select_fields@.len() == 0
    &&& q.select_field_aliases@.len() == 0
    &&& q.select_subqueries@.len() == 0
    &&& q.from_path@ == d.from_path
    &&& match (q.where_clause, d.where_clause) {
        (Option::Some(a), Option::Some(b)) => a@ == b,
        (Option::None, Option::None) => true,
        _ => false,
    }
    &&& q.where_subqueries@.len() == 0
    &&& q.order_by is None
    &&& q.order_direction == SortDirection::Ascending
    &&& q.limit is None
}

} // verus!

verus! {

// ---------------------------------------------------------------------------
// Executable parser
// ---------------------------------------------------------------------------

/// Where `find_kw` points, the keyword stands as a whole word.
pub proof fn lemma_find_kw_some(p: Seq<char>, i: int, w: Seq<char>, inq: bool, j: int)
    requires
        find_kw(p, i, w, inq) == Some(j),
    ensures
        i <= j,
        kw_boundary_at(p, j, w),
    decreases p.len() - i + 1,
{
    if !(i < 0 || i >= p.len()) {
        if p[i] == '\'' {
            lemma_find_kw_some(p, i + 1, w, !inq, j);
        } else if !(!inq && kw_boundary_at(p, i, w)) {
            lemma_find_kw_some(p, i + 1, w, inq, j);
        }
    }
}

proof fn lemma_word_end_bounds(s: Seq<char>, i: int)
    requires
        0 <= i <= s.len(),
    ensures
        i <= word_end(s, i) <= s.len(),
    decreases s.len() - i,
{
    if i < s.len() && is_word_char(s[i]) {
        lemma_word_end_bounds(s, i + 1);
    }
}

fn is_keyword_exec(w: &Vec<char>) -> (r: bool)
    ensures
        r == is_keyword(w@),
{
    let u = upper_vec(w);
    chars_eq(&u, &chars_of("SELECT")) || chars_eq(&u, &chars_of("FROM")) || chars_eq(
        &u,
        &chars_of("WHERE"),
    ) || chars_eq(&u, &chars_of("DELETE")) || chars_eq(&u, &chars_of("ORDER")) || chars_eq(
        &u,
        &chars_of("BY"),
    ) || chars_eq(&u, &chars_of("LIMIT")) || chars_eq(&u, &chars_of("AND")) || chars_eq(
        &u,
        &chars_of("AS"),
    ) || chars_eq(&u, &chars_of("LIKE")) || chars_eq(&u, &chars_of("NOT")) || chars_eq(
        &u,
        &chars_of("EXISTS"),
    ) || chars_eq(&u, &chars_of("IN")) || chars_eq(&u, &chars_of("DISTINCT")) || chars_eq(
        &u,
        &chars_of("IS"),
    ) || chars_eq(&u, &chars_of("NULL"))
}

/// Upper-cases every whole word of the text that is a reserved keyword.
fn upper_keywords(v: &Vec<char>) -> (r: Vec<char>)
    ensures
        r@ == upper_keywords_spec(v@),
{
    let mut out: Vec<char> = Vec::new();
    let mut i: usize = 0;
    while i < v.len()
        invariant
            i <= v@.len(),
            upper_keywords_spec(v@) == out@ + ukw_from(v@, i as int),
        decreases v@.len() - i,
    {
        let ghost pre = out@;
        if word_char(v[i]) {
            let e = crate::condition::word_end_exec(v, i);
            proof {
                assert(e > i) by {
                    assert(is_word_char(v@[i as int]));
                    assert(word_end(v@, i as int) == word_end(v@, i + 1));
                    lemma_word_end_bounds(v@, i + 1);
                };
            }
            let w = subvec(v, i, e);
            if is_keyword_exec(&w) {
                let uw = upper_vec(&w);
                push_all(&mut out, &uw);
            } else {
                push_all(&mut out, &w);
            }
            proof {
                assert(pre + (ukw_from(v@, i as int)) =~= out@ + ukw_from(v@, e as int));
            }
            i = e;
        } else {
            out.push(v[i]);
            proof {
                assert(pre + (ukw_from(v@, i as int)) =~= out@ + ukw_from(v@, i + 1));
            }
            i = i + 1;
        }
    }
    proof {
        assert(out@ + ukw_from(v@, v@.len() as int) =~= out@);
    }
    out
}

/// Tests a whole-word keyword at a position.
fn kw_bound_at(p: &Vec<char>, i: usize, w: &Vec<char>) -> (r: bool)
    requires
        i <= p@.len(),
    ensures
        r == kw_boundary_at(p@, i as int, w@),
{
    if !match_at(p, i, w) {
        return false;
    }
    let n = p.len();
    proof {
        assert(i + w@.len() <= n as int) by {
            assert(is_at(p@, i as int, w@));
        };
    }
    let before_ok = i == 0 || !word_char(p[i - 1]);
    let after = i + w.len();
    let after_ok = after == p.len() || !word_char(p[after]);
    before_ok && after_ok
}

/// Finds the first unquoted whole-word occurrence of `w` at or after
/// `from`.
fn find_kw_exec(p: &Vec<char>, from: usize, w: &Vec<char>) -> (r: Option<usize>)
    requires
        from <= p@.len(),
    ensures
        match r {
            Some(i) => from <= i < p@.len() && find_kw(p@, from as int, w@, false) == Some(
                i as int,
            ),
            None => find_kw(p@, from as int, w@, false) is None,
        },
{
    let mut i: usize = from;
    let mut inq = false;
    loop
        invariant
            from <= i <= p@.len(),
            find_kw(p@, from as int, w@, false) == find_kw(p@, i as int, w@, inq),
        decreases p@.len() - i,
    {
        if i >= p.len() {
            return None;
        }
        if p[i] == '\'' {
            inq = !inq;
            i = i + 1;
        } else if !inq && kw_bound_at(p, i, w) {
            return Some(i);
        } else {
            i = i + 1;
        }
    }
}

fn ws_end_tok_exec(p: &Vec<char>, i: usize) -> (r: usize)
    requires
        i <= p@.len(),
    ensures
        r == ws_end_tok(p@, i as int),
        i <= r <= p@.len(),
{
    let mut j = i;
    while j < p.len() && !space(p[j])
        invariant
            i <= j <= p@.len(),
            ws_end_tok(p@, i as int) == ws_end_tok(p@, j as int),
        decreases p@.len() - j,
    {
        j = j + 1;
    }
    j
}

fn strip_quotes_vec(v: &Vec<char>) -> (r: Vec<char>)
    ensures
        r@ == strip_quotes(v@),
{
    let mut a: usize = 0;
    while a < v.len() && v[a] == '\''
        invariant
            0 <= a <= v@.len(),
            quote_start(v@, 0) == quote_start(v@, a as int),
        decreases v@.len() - a,
    {
        a = a + 1;
    }
    let mut b: usize = v.len();
    while b > 0 && v[b - 1] == '\''
        invariant
            0 <= b <= v@.len(),
            quote_end(v@, v@.len() as int) == quote_end(v@, b as int),
        decreases b,
    {
        b = b - 1;
    }
    if b <= a {
        let r: Vec<char> = Vec::new();
        proof {
            if quote_start(v@, 0) <= quote_end(v@, v@.len() as int) {
                assert(strip_quotes(v@) =~= Seq::<char>::empty());
            }
        }
        r
    } else {
        subvec(v, a, b)
    }
}

/// Reads the FROM target token at `i` and strips its quotes.
fn path_token_exec(p: &Vec<char>, i: usize) -> (r: (Vec<char>, usize))
    requires
        i <= p@.len(),
    ensures
        r.0@ == path_token(p@, i as int).0,
        r.1 == path_token(p@, i as int).1,
        i <= r.1 <= p@.len(),
{
    if i < p.len() && p[i] == '\'' {
        let q = chars_of("'");
        proof {
            reveal_strlit("'");
            assert(q@ =~= seq!['\'']);
        }
        match find_from(p, &q, i + 1) {
            Some(j) => {
                proof {
                    crate::text::lemma_find_at_some(p@, q@, i + 1, j as int);
                    assert(j + 1 <= p@.len());
                }
                let tok = subvec(p, i, j + 1);
                return (strip_quotes_vec(&tok), j + 1);
            },
            None => {
                let e = ws_end_tok_exec(p, i);
                let tok = subvec(p, i, e);
                return (strip_quotes_vec(&tok), e);
            },
        }
    }
    let e = ws_end_tok_exec(p, i);
    let tok = subvec(p, i, e);
    (strip_quotes_vec(&tok), e)
}

} // verus!

verus! {

fn field_of_exec(part: &Vec<char>) -> (r: Option<(String, Option<String>)>)
    ensures
        match r {
            Some(f) => field_of(part@) matches Some(g) && f.0@ == g.0 && match (f.1, g.1) {
                (Option::Some(x), Option::Some(y)) => x@ == y,
                (Option::None, Option::None) => true,
                _ => false,
            },
            None => field_of(part@) is None,
        },
{
    let t = trim(part);
    let we = crate::condition::word_end_exec(&t, 0);
    if we == 0 {
        return None;
    }
    if we == t.len() {
        let name = subvec(&t, 0, we);
        return Some((string_of(&name), None));
    }
    let k = crate::condition::skip_ws_exec(&t, we);
    let kw_as = chars_of("AS");
    proof {
        reveal_strlit("AS");
        assert("AS"@.len() == 2);
    }
    if !(k > we && kw_bound_at(&t, k, &kw_as)) {
        return None;
    }
    let k2 = crate::condition::skip_ws_exec(&t, k + 2);
    if !(k2 > k + 2 && k2 < t.len()) {
        return None;
    }
    let we2 = crate::condition::word_end_exec(&t, k2);
    if we2 > k2 && we2 == t.len() {
        let name = subvec(&t, 0, we);
        let alias = subvec(&t, k2, we2);
        Some((string_of(&name), Some(string_of(&alias))))
    } else {
        None
    }
}

fn fields_exec(t: &Vec<char>, pos: usize) -> (r: Option<(Vec<String>, Vec<Option<String>>)>)
    requires
        pos <= t@.len(),
    ensures
        match r {
            Some(fa) => {
                &&& fields_of(split_commas(t@, pos as int)) matches Some(fl)
                &&& fa.0@.len() == fl.len()
                &&& fa.1@.len() == fl.len()
                &&& forall|i: int| 0 <= i < fl.len() ==> fa.0@[i]@ == (#[trigger] fl[i]).0
                &&& forall|i: int|
                    0 <= i < fl.len() ==> match (#[trigger] fa.1@[i], fl[i].1) {
                        (Option::Some(x), Option::Some(y)) => x@ == y,
                        (Option::None, Option::None) => true,
                        _ => false,
                    }
            },
            None => fields_of(split_commas(t@, pos as int)) is None,
        },
    decreases t@.len() - pos,
{
    let comma = chars_of(",");
    proof {
        reveal_strlit(",");
        assert(","@ =~= seq![',']);
    }
    let next = find_from(t, &comma, pos);
    let ghost parts = split_commas(t@, pos as int);
    match next {
        Some(j) if j < t.len() => {
            proof {
                crate::text::lemma_find_at_some(t@, seq![','], pos as int, j as int);
                assert(parts =~= seq![t@.subrange(pos as int, j as int)] + split_commas(
                    t@,
                    j + 1,
                ));
                assert(parts[0] == t@.subrange(pos as int, j as int));
                assert(parts.drop_first() =~= split_commas(t@, j + 1));
            }
            let part = subvec(t, pos, j);
            let f = match field_of_exec(&part) {
                Some(f) => f,
                None => {
                    return None;
                },
            };
            match fields_exec(t, j + 1) {
                Some(rest) => {
                    let mut fs: Vec<String> = Vec::new();
                    let mut als: Vec<Option<String>> = Vec::new();
                    fs.push(f.0);
                    als.push(f.1);
                    let mut rf = rest.0;
                    let mut ra = rest.1;
                    fs.append(&mut rf);
                    als.append(&mut ra);
                    proof {
                        let fl = fields_of(parts).unwrap();
                        assert(fl =~= seq![field_of(parts[0]).unwrap()] + fields_of(
                            parts.drop_first(),
                        ).unwrap());
                    }
                    Some((fs, als))
                },
                None => None,
            }
        },
        _ => {
            proof {
                if next is Some {
                    crate::text::lemma_find_at_some(t@, seq![','], pos as int, next.unwrap() as int);
                    assert(false);
                }
                assert(parts =~= seq![t@.subrange(pos as int, t@.len() as int)]);
                assert(parts[0] == t@.subrange(pos as int, t@.len() as int));
                assert(parts.drop_first() =~= Seq::<Seq<char>>::empty());
            }
            let part = subvec(t, pos, t.len());
            match field_of_exec(&part) {
                Some(f) => {
                    let mut fs: Vec<String> = Vec::new();
                    let mut als: Vec<Option<String>> = Vec::new();
                    fs.push(f.0);
                    als.push(f.1);
                    proof {
                        let fl = fields_of(parts).unwrap();
                        assert(fl =~= seq![field_of(parts[0]).unwrap()]);
                    }
                    Some((fs, als))
                },
                None => None,
            }
        },
    }
}

/// Pushes the default column names of a target onto fresh vectors.
fn default_fields_exec(path: &Vec<char>) -> (r: (Vec<String>, Vec<Option<String>>))
    ensures
        ({
            let fs = default_fields(path@);
            &&& r.0@.len() == fs.len()
            &&& r.1@.len() == fs.len()
            &&& forall|i: int| 0 <= i < fs.len() ==> r.0@[i]@ == #[trigger] fs[i]
            &&& forall|i: int| 0 <= i < fs.len() ==> #[trigger] r.1@[i] is None
        }),
{
    let mut fs: Vec<String> = Vec::new();
    let mut als: Vec<Option<String>> = Vec::new();
    if chars_eq(path, &chars_of("ps")) {
        fs.push(string_of(&chars_of("pid")));
        fs.push(string_of(&chars_of("name")));
        fs.push(string_of(&chars_of("cpu_usage")));
        fs.push(string_of(&chars_of("memory_usage")));
        fs.push(string_of(&chars_of("status")));
    } else if chars_eq(path, &chars_of("net")) {
        fs.push(string_of(&chars_of("name")));
        fs.push(string_of(&chars_of("port")));
        fs.push(string_of(&chars_of("pid")));
    } else if chars_eq(path, &chars_of("applications")) {
        fs.push(string_of(&chars_of("name")));
        fs.push(string_of(&chars_of("version")));
        fs.push(string_of(&chars_of("path")));
        fs.push(string_of(&chars_of("size")));
        fs.push(string_of(&chars_of("category")));
    } else {
        fs.push(string_of(&chars_of("name")));
        fs.push(string_of(&chars_of("type")));
        fs.push(string_of(&chars_of("modified_date")));
        fs.push(string_of(&chars_of("permissions")));
        fs.push(string_of(&chars_of("size")));
        fs.push(string_of(&chars_of("path")));
    }
    let mut i: usize = 0;
    while i < fs.len()
        invariant
            als@.len() == i <= fs@.len(),
            forall|j: int| 0 <= j < i ==> #[trigger] als@[j] is None,
        decreases fs@.len() - i,
    {
        als.push(None);
        i = i + 1;
    }
    proof {
        assert(forall|i: int|
            0 <= i < default_fields(path@).len() ==> fs@[i]@ == #[trigger] default_fields(
                path@,
            )[i]);
    }
    (fs, als)
}

} // verus!

verus! {


/// Builds a positioned-parse-error message; every such message starts
/// with `Parse error`.
fn parse_error(text: &str) -> (r: String)
    ensures
        is_at(r@, 0, "Parse error"@),
{
    let mut v = chars_of("Parse error: ");
    push_all(&mut v, &chars_of(text));
    proof {
        reveal_strlit("Parse error");
        reveal_strlit("Parse error: ");
        assert(v@.subrange(0, "Parse error"@.len() as int) =~= "Parse error"@);
    }
    string_of(&v)
}

#[verifier::rlimit(80)]
fn parse_select_exec(p: &Vec<char>, orig: &Vec<char>) -> (r: Result<SqlQuery, String>)
    ensures
        match r {
            Ok(q) => parse_select_spec(p@, orig@) matches ParseShape::Sel(s) && query_matches_sel(
                q,
                s,
            ),
            Err(e) => {
                &&& parse_select_spec(p@, orig@) is Invalid || parse_select_spec(p@, orig@)
                    is BadLimit
                &&& parse_select_spec(p@, orig@) is Invalid ==> is_at(e@, 0, "Parse error"@)
                &&& parse_select_spec(p@, orig@) is BadLimit ==> e@ == "Invalid limit value"@
            },
        },
{
    proof {
        reveal_strlit("SELECT");
        reveal_strlit("DISTINCT");
        reveal_strlit("FROM");
        reveal_strlit("WHERE");
        reveal_strlit("ORDER");
        reveal_strlit("BY");
        reveal_strlit("LIMIT");
        assert("SELECT"@.len() == 6);
        assert("DISTINCT"@.len() == 8);
        assert("FROM"@.len() == 4);
        assert("WHERE"@.len() == 5);
        assert("ORDER"@.len() == 5);
        assert("LIMIT"@.len() == 5);
        assert("BY"@.len() == 2);
    }
    let a = crate::condition::skip_ws_exec(p, 0);
    if !kw_bound_at(p, a, &chars_of("SELECT")) {
        return Err(parse_error("expected SELECT"));
    }
    let n = p.len();
    proof {
        assert(a + 6 <= n as int);
    }
    let b = crate::condition::skip_ws_exec(p, a + 6);
    if b == a + 6 && b < p.len() {
        return Err(parse_error("expected fields"));
    }
    let fs_start: usize = if kw_bound_at(p, b, &chars_of("DISTINCT")) {
        crate::condition::skip_ws_exec(p, b + 8)
    } else {
        b
    };
    let fi = match find_kw_exec(p, fs_start, &chars_of("FROM")) {
        Some(fi) => fi,
        None => {
            return Err(parse_error("expected FROM"));
        },
    };
    proof {
        assert(fi + 4 <= n as int) by {
            crate::parser::lemma_find_kw_some(p@, fs_start as int, "FROM"@, false, fi as int);
        };
    }
    let ftext = trim(&subvec(p, fs_start, fi));
    let ps = crate::condition::skip_ws_exec(p, fi + 4);
    let (ptok, pend) = path_token_exec(p, ps);
    if ptok.len() == 0 {
        return Err(parse_error("expected a target"));
    }
    // Optional WHERE clause.
    let rr = crate::condition::skip_ws_exec(p, pend);
    let mut wtext: Option<Vec<char>> = None;
    let after_where: usize = if kw_bound_at(p, rr, &chars_of("WHERE")) {
        let ws = crate::condition::skip_ws_exec(p, rr + 5);
        let o = find_kw_exec(p, ws, &chars_of("ORDER"));
        let l = find_kw_exec(p, ws, &chars_of("LIMIT"));
        let oend: usize = match (o, l) {
            (Some(oi), Some(li)) => if oi <= li {
                oi
            } else {
                li
            },
            (Some(oi), None) => oi,
            (None, Some(li)) => li,
            (None, None) => p.len(),
        };
        proof {
            assert(oend as int == clause_end(p@, ws as int));
        }
        wtext = Some(trim(&subvec(p, ws, oend)));
        oend
    } else {
        rr
    };
    // Optional ORDER BY clause.
    let r2 = crate::condition::skip_ws_exec(p, after_where);
    let mut otext: Option<Vec<char>> = None;
    let mut descending = false;
    let has_ord: bool = if kw_bound_at(p, r2, &chars_of("ORDER")) {
        let byi = crate::condition::skip_ws_exec(p, r2 + 5);
        byi > r2 + 5 && kw_bound_at(p, byi, &chars_of("BY"))
    } else {
        false
    };
    let i_limit: usize = if has_ord {
        let byi = crate::condition::skip_ws_exec(p, r2 + 5);
        let os = crate::condition::skip_ws_exec(p, byi + 2);
        let oe: usize = match find_kw_exec(p, os, &chars_of("LIMIT")) {
            Some(li) => li,
            None => p.len(),
        };
        let clause = subvec(p, os, oe);
        let up = upper_vec(&clause);
        let kdesc = chars_of(" DESC");
        let kasc = chars_of(" ASC");
        let field: Vec<char> = if find_from(&up, &kdesc, 0).is_some() {
            descending = true;
            match find_from(&clause, &kdesc, 0) {
                Some(ci) => {
                    proof {
                        crate::text::lemma_find_at_some(clause@, " DESC"@, 0, ci as int);
                    }
                    trim(&subvec(&clause, 0, ci))
                },
                None => trim(&clause),
            }
        } else if find_from(&up, &kasc, 0).is_some() {
            match find_from(&clause, &kasc, 0) {
                Some(ci) => {
                    proof {
                        crate::text::lemma_find_at_some(clause@, " ASC"@, 0, ci as int);
                    }
                    trim(&subvec(&clause, 0, ci))
                },
                None => trim(&clause),
            }
        } else {
            trim(&clause)
        };
        proof {
            assert(field@ == order_of_clause(p@.subrange(os as int, oe as int)).0);
            assert(descending == order_of_clause(p@.subrange(os as int, oe as int)).1);
        }
        otext = Some(field);
        crate::condition::skip_ws_exec(p, oe)
    } else {
        r2
    };
    let ghost gw: Option<Seq<char>> = match wtext {
        Some(ref w) => Some(w@),
        None => None,
    };
    let ghost go: Option<Seq<char>> = match otext {
        Some(ref o) => Some(o@),
        None => None,
    };
    proof {
        assert(parse_select_spec(p@, orig@) == parse_select_tail(
            p@,
            orig@,
            ftext@,
            ptok@,
            pend as int,
        ));
        assert(parse_select_tail(p@, orig@, ftext@, ptok@, pend as int) == finish_select(
            p@,
            orig@,
            ftext@,
            ptok@,
            gw,
            go,
            descending,
            i_limit as int,
        ));
    }
    // Optional LIMIT clause.
    let mut limit: Option<usize> = None;
    if kw_bound_at(p, i_limit, &chars_of("LIMIT")) {
        let ntext = trim(&subvec(p, i_limit + 5, p.len()));
        if ntext.len() == 0 {
            return Err(parse_error("expected a limit"));
        }
        let mut di: usize = 0;
        let mut all_ok = true;
        while di < ntext.len() && all_ok
            invariant
                di <= ntext@.len(),
                all_ok ==> forall|j: int| 0 <= j < di ==> crate::text::is_digit(
                    #[trigger] ntext@[j],
                ),
                !all_ok ==> !all_digits(ntext@),
            decreases ntext@.len() - di + (if all_ok { 1int } else { 0int }),
        {
            if !crate::text::digit(ntext[di]) {
                proof {
                    assert(!all_digits(ntext@)) by {
                        assert(!crate::text::is_digit(ntext@[di as int]));
                    };
                }
                all_ok = false;
            } else {
                di = di + 1;
            }
        }
        if !all_ok {
            return Err(parse_error("expected a number"));
        }
        proof {
            assert(all_digits(ntext@));
        }
        match parse_usize(&ntext) {
            Some(n) => {
                limit = Some(n);
            },
            None => {
                return Err(string_of(&chars_of("Invalid limit value")));
            },
        }
    } else if i_limit < p.len() {
        return Err(parse_error("trailing input"));
    }
    // Assemble.
    let up_orig = upper_vec(orig);
    let distinct = find_from(&up_orig, &chars_of("DISTINCT"), 0).is_some();
    let (fields, aliases) = if chars_eq(&ftext, &chars_of("*")) {
        default_fields_exec(&ptok)
    } else {
        match fields_exec(&ftext, 0) {
            Some(fa) => fa,
            None => {
                return Err(parse_error("malformed field list"));
            },
        }
    };
    let q = SqlQuery {
        query_type: QueryType::Select,
        distinct,
        select_fields: fields,
        select_field_aliases: aliases,
        select_subqueries: Vec::new(),
        from_path: string_of(&ptok),
        where_clause: match &wtext {
            Some(w) => Some(string_of(w)),
            None => None,
        },
        where_subqueries: Vec::new(),
        order_by: match &otext {
            Some(o) => Some(string_of(o)),
            None => None,
        },
        order_direction: if descending {
            SortDirection::Descending
        } else {
            SortDirection::Ascending
        },
        limit,
    };
    Ok(q)
}

fn parse_delete_exec(p: &Vec<char>) -> (r: Result<SqlQuery, String>)
    ensures
        match r {
            Ok(q) => parse_delete_spec(p@) matches ParseShape::Del(d) && query_matches_del(q, d),
            Err(e) => parse_delete_spec(p@) is Invalid && is_at(e@, 0, "Parse error"@),
        },
{
    proof {
        reveal_strlit("DELETE");
        reveal_strlit("FROM");
        reveal_strlit("WHERE");
        assert("DELETE"@.len() == 6);
        assert("FROM"@.len() == 4);
        assert("WHERE"@.len() == 5);
    }
    let a = crate::condition::skip_ws_exec(p, 0);
    if !kw_bound_at(p, a, &chars_of("DELETE")) {
        return Err(parse_error("expected DELETE"));
    }
    let n = p.len();
    proof {
        assert(a + 6 <= n as int);
    }
    let b = crate::condition::skip_ws_exec(p, a + 6);
    if !(b > a + 6 && kw_bound_at(p, b, &chars_of("FROM"))) {
        return Err(parse_error("expected FROM"));
    }
    proof {
        assert(b + 4 <= n as int);
    }
    let ps = crate::condition::skip_ws_exec(p, b + 4);
    let (ptok, pend) = path_token_exec(p, ps);
    if ptok.len() == 0 {
        return Err(parse_error("expected a target"));
    }
    let rr = crate::condition::skip_ws_exec(p, pend);
    if kw_bound_at(p, rr, &chars_of("WHERE")) {
        let ws = crate::condition::skip_ws_exec(p, rr + 5);
        let wtext = trim(&subvec(p, ws, p.len()));
        Ok(
            SqlQuery {
                query_type: QueryType::Delete,
                distinct: false,
                select_fields: Vec::new(),
                select_field_aliases: Vec::new(),
                select_subqueries: Vec::new(),
                from_path: string_of(&ptok),
                where_clause: Some(string_of(&wtext)),
                where_subqueries: Vec::new(),
                order_by: None,
                order_direction: SortDirection::Ascending,
                limit: None,
            },
        )
    } else if rr == p.len() {
        Ok(
            SqlQuery {
                query_type: QueryType::Delete,
                distinct: false,
                select_fields: Vec::new(),
                select_field_aliases: Vec::new(),
                select_subqueries: Vec::new(),
                from_path: string_of(&ptok),
                where_clause: None,
                where_subqueries: Vec::new(),
                order_by: None,
                order_direction: SortDirection::Ascending,
                limit: None,
            },
        )
    } else {
        Err(parse_error("trailing input"))
    }
}

/// Parses a whole query text into a structured query.
///
/// The text must take the SELECT form or the DELETE form described by
/// `parse_spec`; a bare `*` field list comes back expanded to the
/// target's default columns, and a LIMIT beyond the machine's range
/// fails with `Invalid limit value`.
pub fn parse_query(query: &str) -> (r: Result<SqlQuery, String>)
    ensures
        match r {
            Ok(q) => (parse_spec(query@) matches ParseShape::Sel(s) && query_matches_sel(q, s)) || (
            parse_spec(query@) matches ParseShape::Del(d) && query_matches_del(q, d)),
            Err(e) => {
                &&& parse_spec(query@) is Invalid || parse_spec(query@) is BadLimit
                &&& parse_spec(query@) is Invalid ==> is_at(e@, 0, "Parse error"@)
                &&& parse_spec(query@) is BadLimit ==> e@ == "Invalid limit value"@
            },
        },
{
    let v = chars_of(query);
    let p = upper_keywords(&v);
    let a = crate::condition::skip_ws_exec(&p, 0);
    if kw_bound_at(&p, a, &chars_of("SELECT")) {
        parse_select_exec(&p, &v)
    } else if kw_bound_at(&p, a, &chars_of("DELETE")) {
        parse_delete_exec(&p)
    } else {
        Err(parse_error("expected SELECT or DELETE"))
    }
}

} // verus!
