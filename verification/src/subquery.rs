//! The subquery resolver's rewrite: placeholder tokens in WHERE text are
//! replaced by literal values from already-executed nested queries.
//!
//! This is textual macro expansion, not a bound-parameter mechanism: an
//! `IN` placeholder becomes a parenthesised, comma-joined list of
//! single-quoted values (embedded quotes doubled), or the bare literal
//! `NULL` when the nested query was empty; an `EXISTS` placeholder becomes
//! `TRUE` or `FALSE` by non-emptiness; a scalar placeholder becomes one
//! literal value from the first row, or `NULL`. The rewritten text is
//! re-parsed as the query language afterwards, so the quoting here is part
//! of the contract.

use vstd::prelude::*;
use crate::models::QueryResult;
use crate::text::{replace_seq, replace_chars, chars_of, push_all, string_of, subvec, is_at,
    match_at};

verus! {

/// A value quoted for splicing: surrounded by single quotes, with every
/// embedded single quote doubled.
pub open spec fn quoted(name: Seq<char>) -> Seq<char> {
    seq!['\''] + replace_seq(name, seq!['\''], seq!['\'', '\'']) + seq!['\'']
}

fn quoted_exec(name: &str) -> (r: Vec<char>)
    ensures
        r@ == quoted(name@),
{
    let n = chars_of(name);
    let q = chars_of("'");
    let qq = chars_of("''");
    proof {
        reveal_strlit("'");
        reveal_strlit("''");
        assert(q@ =~= seq!['\'']);
        assert(qq@ =~= seq!['\'', '\'']);
    }
    let esc = replace_chars(&n, &q, &qq);
    let mut out: Vec<char> = Vec::new();
    out.push('\'');
    push_all(&mut out, &esc);
    out.push('\'');
    proof {
        assert(out@ =~= quoted(name@));
    }
    out
}

/// A comma-joined list of already-rendered values.
pub open spec fn joined(vals: Seq<Seq<char>>) -> Seq<char>
    decreases vals.len(),
{
    if vals.len() == 0 {
        Seq::empty()
    } else if vals.len() == 1 {
        vals[0]
    } else {
        vals[0] + seq![',', ' '] + joined(vals.drop_first())
    }
}

/// The quoted names of a list of file records.
pub open spec fn file_names_quoted(fs: Seq<crate::models::FileInfo>) -> Seq<Seq<char>> {
    Seq::new(fs.len(), |i: int| quoted(fs[i].name@))
}

/// The raw process ids of a list of process records.
pub open spec fn proc_pids(ps: Seq<crate::models::ProcessInfo>) -> Seq<Seq<char>> {
    Seq::new(ps.len(), |i: int| ps[i].pid@)
}

/// The quoted names of a list of application records.
pub open spec fn app_names_quoted(aps: Seq<crate::models::ApplicationInfo>) -> Seq<Seq<char>> {
    Seq::new(aps.len(), |i: int| quoted(aps[i].name@))
}

/// An IN list: parenthesised joined values, or the bare literal `NULL`
/// when there are none.
pub open spec fn in_list(vals: Seq<Seq<char>>) -> Seq<char> {
    if vals.len() == 0 {
        "NULL"@
    } else {
        seq!['('] + joined(vals) + seq![')']
    }
}

/// Whether a query result holds no rows.
pub open spec fn result_empty(res: QueryResult) -> bool {
    match res {
        QueryResult::Files(fs) => fs@.len() == 0,
        QueryResult::Processes(ps) => ps@.len() == 0,
        QueryResult::Network(ns) => ns@.len() == 0,
        QueryResult::Applications(aps) => aps@.len() == 0,
    }
}

/// What a placeholder key is replaced by, given its nested query's
/// result; `None` when the key carries no known placeholder prefix, or an
/// IN placeholder meets a result shape it cannot splice.
pub open spec fn repl_of(key: Seq<char>, res: QueryResult) -> Option<Seq<char>> {
    if is_at(key, 0, "__EXISTS_SUBQUERY_"@) {
        Some(
            if result_empty(res) {
                "FALSE"@
            } else {
                "TRUE"@
            },
        )
    } else if is_at(key, 0, "__SCALAR_SUBQUERY_"@) {
        Some(
            match res {
                QueryResult::Files(fs) => if fs@.len() == 0 {
                    "NULL"@
                } else {
                    quoted(fs@[0].name@)
                },
                QueryResult::Processes(ps) => if ps@.len() == 0 {
                    "NULL"@
                } else {
                    ps@[0].pid@
                },
                QueryResult::Network(ns) => if ns@.len() == 0 {
                    "NULL"@
                } else {
                    ns@[0].port@
                },
                QueryResult::Applications(aps) => if aps@.len() == 0 {
                    "NULL"@
                } else {
                    quoted(aps@[0].name@)
                },
            },
        )
    } else if is_at(key, 0, "__SUBQUERY_"@) {
        match res {
            QueryResult::Files(fs) => Some(in_list(file_names_quoted(fs@))),
            QueryResult::Processes(ps) => Some(in_list(proc_pids(ps@))),
            QueryResult::Applications(aps) => Some(in_list(app_names_quoted(aps@))),
            QueryResult::Network(ns) => None,
        }
    } else {
        None
    }
}

/// The WHERE text with every placeholder of the list replaced in order.
pub open spec fn rewrite_all(t: Seq<char>, prs: Seq<(String, QueryResult)>) -> Seq<char>
    decreases prs.len(),
{
    if prs.len() == 0 {
        t
    } else {
        let t2 = match repl_of(prs[0].0@, prs[0].1) {
            Some(r) => replace_seq(t, prs[0].0@, r),
            None => t,
        };
        rewrite_all(t2, prs.drop_first())
    }
}

fn joined_from(vals: &Vec<Vec<char>>, i: usize) -> (r: Vec<char>)
    requires
        i <= vals@.len(),
    ensures
        r@ == joined(Seq::new(vals@.len(), |k: int| vals@[k]@).skip(i as int)),
    decreases vals@.len() - i,
{
    let ghost views = Seq::new(vals@.len(), |k: int| vals@[k]@);
    if i >= vals.len() {
        proof {
            assert(views.skip(i as int) =~= Seq::<Seq<char>>::empty());
        }
        Vec::new()
    } else if i == vals.len() - 1 {
        proof {
            assert(views.skip(i as int).len() == 1);
            assert(views.skip(i as int)[0] == views[i as int]);
        }
        subvec(&vals[i], 0, vals[i].len())
    } else {
        let mut out = subvec(&vals[i], 0, vals[i].len());
        out.push(',');
        out.push(' ');
        let rest = joined_from(vals, i + 1);
        push_all(&mut out, &rest);
        proof {
            assert(views.skip(i as int)[0] == views[i as int]);
            assert(views.skip(i as int).drop_first() =~= views.skip(i + 1));
            assert(out@ =~= views[i as int] + seq![',', ' '] + joined(views.skip(i + 1)));
        }
        out
    }
}

fn joined_exec(vals: &Vec<Vec<char>>) -> (r: Vec<char>)
    ensures
        r@ == joined(Seq::new(vals@.len(), |i: int| vals@[i]@)),
{
    let r = joined_from(vals, 0);
    proof {
        assert(Seq::new(vals@.len(), |i: int| vals@[i]@).skip(0) =~= Seq::new(
            vals@.len(),
            |i: int| vals@[i]@,
        ));
    }
    r
}


fn result_empty_exec(res: &QueryResult) -> (r: bool)
    ensures
        r == result_empty(*res),
{
    match res {
        QueryResult::Files(fs) => fs.len() == 0,
        QueryResult::Processes(ps) => ps.len() == 0,
        QueryResult::Network(ns) => ns.len() == 0,
        QueryResult::Applications(aps) => aps.len() == 0,
    }
}

fn in_list_exec(vals: Vec<Vec<char>>) -> (r: Vec<char>)
    ensures
        r@ == in_list(Seq::new(vals@.len(), |i: int| vals@[i]@)),
{
    if vals.len() == 0 {
        chars_of("NULL")
    } else {
        let mut out: Vec<char> = Vec::new();
        out.push('(');
        let j = joined_exec(&vals);
        push_all(&mut out, &j);
        out.push(')');
        proof {
            assert(out@ =~= seq!['('] + joined(Seq::new(vals@.len(), |i: int| vals@[i]@)) + seq![
                ')',
            ]);
        }
        out
    }
}

fn repl_of_exec(key: &String, res: &QueryResult) -> (r: Option<Vec<char>>)
    ensures
        match r {
            Some(v) => repl_of(key@, *res) == Some(v@),
            None => repl_of(key@, *res) is None,
        },
{
    let kv = chars_of(key.as_str());
    if match_at(&kv, 0, &chars_of("__EXISTS_SUBQUERY_")) {
        if result_empty_exec(res) {
            Some(chars_of("FALSE"))
        } else {
            Some(chars_of("TRUE"))
        }
    } else if match_at(&kv, 0, &chars_of("__SCALAR_SUBQUERY_")) {
        match res {
            QueryResult::Files(fs) => {
                if fs.len() == 0 {
                    Some(chars_of("NULL"))
                } else {
                    Some(quoted_exec(fs[0].name.as_str()))
                }
            },
            QueryResult::Processes(ps) => {
                if ps.len() == 0 {
                    Some(chars_of("NULL"))
                } else {
                    Some(chars_of(ps[0].pid.as_str()))
                }
            },
            QueryResult::Network(ns) => {
                if ns.len() == 0 {
                    Some(chars_of("NULL"))
                } else {
                    Some(chars_of(ns[0].port.as_str()))
                }
            },
            QueryResult::Applications(aps) => {
                if aps.len() == 0 {
                    Some(chars_of("NULL"))
                } else {
                    Some(quoted_exec(aps[0].name.as_str()))
                }
            },
        }
    } else if match_at(&kv, 0, &chars_of("__SUBQUERY_")) {
        match res {
            QueryResult::Files(fs) => {
                let mut vals: Vec<Vec<char>> = Vec::new();
                let mut i: usize = 0;
                while i < fs.len()
                    invariant
                        vals@.len() == i <= fs@.len(),
                        forall|k: int| 0 <= k < i ==> (#[trigger] vals@[k])@ == quoted(
                            fs@[k].name@,
                        ),
                    decreases fs@.len() - i,
                {
                    vals.push(quoted_exec(fs[i].name.as_str()));
                    i = i + 1;
                }
                proof {
                    assert(Seq::new(vals@.len(), |i: int| vals@[i]@) =~= file_names_quoted(fs@));
                }
                Some(in_list_exec(vals))
            },
            QueryResult::Processes(ps) => {
                let mut vals: Vec<Vec<char>> = Vec::new();
                let mut i: usize = 0;
                while i < ps.len()
                    invariant
                        vals@.len() == i <= ps@.len(),
                        forall|k: int| 0 <= k < i ==> (#[trigger] vals@[k])@ == ps@[k].pid@,
                    decreases ps@.len() - i,
                {
                    vals.push(chars_of(ps[i].pid.as_str()));
                    i = i + 1;
                }
                proof {
                    assert(Seq::new(vals@.len(), |i: int| vals@[i]@) =~= proc_pids(ps@));
                }
                Some(in_list_exec(vals))
            },
            QueryResult::Applications(aps) => {
                let mut vals: Vec<Vec<char>> = Vec::new();
                let mut i: usize = 0;
                while i < aps.len()
                    invariant
                        vals@.len() == i <= aps@.len(),
                        forall|k: int| 0 <= k < i ==> (#[trigger] vals@[k])@ == quoted(
                            aps@[k].name@,
                        ),
                    decreases aps@.len() - i,
                {
                    vals.push(quoted_exec(aps[i].name.as_str()));
                    i = i + 1;
                }
                proof {
                    assert(Seq::new(vals@.len(), |i: int| vals@[i]@) =~= app_names_quoted(aps@));
                }
                Some(in_list_exec(vals))
            },
            QueryResult::Network(_) => None,
        }
    } else {
        None
    }
}

/// Rewrites the WHERE text by replacing each placeholder of the list, in
/// order, with the literal rendering of its nested query's result.
pub fn process_where_subquery_placeholders(
    where_clause: &str,
    subquery_results: &Vec<(String, QueryResult)>,
) -> (r: String)
    ensures
        r@ == rewrite_all(where_clause@, subquery_results@),
{
    let mut t = chars_of(where_clause);
    let mut i: usize = 0;
    proof {
        assert(subquery_results@.skip(0) =~= subquery_results@);
    }
    while i < subquery_results.len()
        invariant
            i <= subquery_results@.len(),
            rewrite_all(where_clause@, subquery_results@) == rewrite_all(
                t@,
                subquery_results@.skip(i as int),
            ),
        decreases subquery_results@.len() - i,
    {
        let ghost rem = subquery_results@.skip(i as int);
        proof {
            assert(rem[0] == subquery_results@[i as int]);
            assert(rem.drop_first() =~= subquery_results@.skip(i + 1));
        }
        let kv = chars_of(subquery_results[i].0.as_str());
        match repl_of_exec(&subquery_results[i].0, &subquery_results[i].1) {
            Some(rv) => {
                t = replace_chars(&t, &kv, &rv);
            },
            None => {},
        }
        i = i + 1;
    }
    proof {
        assert(rewrite_all(t@, subquery_results@.skip(subquery_results@.len() as int)) == t@);
    }
    string_of(&t)
}

} // verus!
