//! The query executor: parsed query to result, over injected source
//! snapshots.
//!
//! Grammar parsing, condition parsing and this orchestration are
//! single-threaded. Nested subqueries run depth-first and their results
//! are spliced into the parent's WHERE text before the compound parser
//! sees it. The collectors themselves — the process table, the socket
//! table, the application inventory, the filesystem snapshot — are outside
//! collaborators and hand their records in through `Sources`.

use vstd::prelude::*;
use crate::condition::{conds_of_text, shapes_of, parse_compound_conditions};
use crate::evaluate::{
    proc_conds_hold, net_conds_hold, app_conds_hold, evaluate_process_conditions,
    evaluate_network_conditions, evaluate_application_conditions,
};
use crate::models::{
    ApplicationInfo, Condition, FileInfo, NetInfo, ProcessInfo, QueryResult, QueryType,
    SortDirection, SqlQuery,
};
use crate::sort::{
    norm_field, sort_spec, is_desc, sort_process_results, sort_network_results,
    sort_application_results, sort_results,
};
use crate::subquery::{rewrite_all, process_where_subquery_placeholders};
use crate::text::{chars_of, string_of, push_all, str_eq, fmt_u64, dec_str, chars_eq};
use crate::traverse::{FsNode, collect_files_model, traverse_spec, views_of};

verus! {

/// The records every non-filesystem source has collected, and a snapshot
/// per filesystem root the executor may be asked about.
pub struct Sources {
    pub processes: Vec<ProcessInfo>,
    pub network: Vec<NetInfo>,
    pub applications: Vec<ApplicationInfo>,
    /// Filesystem snapshots, one per target path the caller resolved.
    pub filesystems: Vec<(String, FsNode)>,
}

// ---------------------------------------------------------------------------
// Record copies with known views
// ---------------------------------------------------------------------------

fn clone_opt_exact(o: &Option<String>) -> (r: Option<String>)
    ensures
        r == *o,
{
    match o {
        Option::Some(s) => Some(s.clone()),
        Option::None => None,
    }
}

fn copy_process(p: &ProcessInfo) -> (r: ProcessInfo)
    ensures
        r == *p,
{
    ProcessInfo {
        pid: p.pid.clone(),
        name: p.name.clone(),
        cpu_usage: p.cpu_usage.clone(),
        memory_usage: p.memory_usage.clone(),
        status: p.status.clone(),
    }
}

fn copy_net(n: &NetInfo) -> (r: NetInfo)
    ensures
        r == *n,
{
    NetInfo { name: n.name.clone(), port: n.port.clone(), pid: n.pid.clone() }
}

fn copy_app(a: &ApplicationInfo) -> (r: ApplicationInfo)
    ensures
        r == *a,
{
    ApplicationInfo {
        name: a.name.clone(),
        version: clone_opt_exact(&a.version),
        path: a.path.clone(),
        size: clone_opt_exact(&a.size),
        category: clone_opt_exact(&a.category),
    }
}

// ---------------------------------------------------------------------------
// Parsing a query's WHERE text
// ---------------------------------------------------------------------------

/// The conditions a WHERE text denotes, or an empty list when there is
/// none; `None` when the text does not parse.
pub open spec fn conds_of_where(w: Option<String>) -> Option<Seq<crate::condition::CondShape>> {
    match w {
        Option::Some(t) => conds_of_text(t@),
        Option::None => Some(Seq::empty()),
    }
}

/// The views of an optional WHERE text.
pub open spec fn where_views(w: Option<String>) -> Option<Seq<char>> {
    match w {
        Option::Some(t) => Some(t@),
        Option::None => None,
    }
}

/// The conditions an optional WHERE text, given as views, denotes.
pub open spec fn conds_of_where_text(w: Option<Seq<char>>) -> Option<
    Seq<crate::condition::CondShape>,
> {
    match w {
        Option::Some(t) => conds_of_text(t),
        Option::None => Some(Seq::empty()),
    }
}

fn parse_where(w: &Option<String>) -> (r: Result<Vec<Condition>, String>)
    ensures
        match r {
            Ok(cs) => conds_of_where(*w) == Some(shapes_of(cs@)),
            Err(e) => conds_of_where(*w) is None && crate::text::is_at(
                e@,
                0,
                "Invalid condition: "@,
            ),
        },
{
    match w {
        Option::Some(t) => {
            let r = parse_compound_conditions(t.as_str());
            proof {
                if r is Err {
                    let e = r->Err_0;
                    let i = choose|i: int|
                        {
                            &&& 0 <= i < crate::condition::parts_of(t@).len()
                            &&& crate::condition::classify(
                                crate::text::trim_seq(
                                    #[trigger] crate::condition::parts_of(t@)[i],
                                ),
                            ) is None
                            &&& e@ == "Invalid condition: "@ + crate::text::trim_seq(
                                crate::condition::parts_of(t@)[i],
                            )
                        };
                    assert(e@.subrange(0, "Invalid condition: "@.len() as int)
                        =~= "Invalid condition: "@);
                }
            }
            r
        },
        Option::None => {
            let cs: Vec<Condition> = Vec::new();
            proof {
                assert(shapes_of(cs@) =~= Seq::<crate::condition::CondShape>::empty());
            }
            Ok(cs)
        },
    }
}

// ---------------------------------------------------------------------------
// The per-source executors
// ---------------------------------------------------------------------------

/// What a process query's result is built from: the parsed WHERE
/// conditions, the records they keep, the ordering asked for, and the
/// limit.
pub open spec fn proc_select_post(
    query: SqlQuery,
    wtext: Option<Seq<char>>,
    processes: Seq<ProcessInfo>,
    rs: Seq<ProcessInfo>,
    cs: Seq<Condition>,
    mid: Seq<ProcessInfo>,
) -> bool {
    &&& conds_of_where_text(wtext) == Some(shapes_of(cs))
    &&& mid == match query.order_by {
        Option::Some(ob) => sort_spec(
            processes.filter(|p: ProcessInfo| proc_conds_hold(p, cs)),
            norm_field(ob@),
            is_desc(query.order_direction),
        ),
        Option::None => processes.filter(|p: ProcessInfo| proc_conds_hold(p, cs)),
    }
    &&& rs == truncated(mid, query.limit)
}

/// Some condition list and intermediate order build this process result.
pub open spec fn proc_select_witness(
    query: SqlQuery,
    wtext: Option<Seq<char>>,
    processes: Seq<ProcessInfo>,
    rs: Seq<ProcessInfo>,
) -> bool {
    exists|cs: Seq<Condition>, mid: Seq<ProcessInfo>|
        #[trigger] proc_select_post(query, wtext, processes, rs, cs, mid)
}

/// Runs a query against already-collected process records: parse the
/// WHERE text, keep the records every condition holds of, sort when asked
/// to, and truncate to the limit.
pub fn execute_process_query(query: &SqlQuery, processes: &Vec<ProcessInfo>) -> (r: Result<
    Vec<ProcessInfo>,
    String,
>)
    ensures
        match r {
            Ok(rs) => proc_select_witness(
                *query,
                where_views(query.where_clause),
                processes@,
                rs@,
            ),
            Err(e) => conds_of_where(query.where_clause) is None && crate::text::is_at(
                e@,
                0,
                "Invalid condition: "@,
            ),
        },
{
    let conditions = match parse_where(&query.where_clause) {
        Ok(cs) => cs,
        Err(e) => {
            return Err(e);
        },
    };
    let mut results: Vec<ProcessInfo> = Vec::new();
    let mut i: usize = 0;
    while i < processes.len()
        invariant
            i <= processes@.len(),
            results@ =~= processes@.subrange(0, i as int).filter(
                |p: ProcessInfo| proc_conds_hold(p, conditions@),
            ),
        decreases processes@.len() - i,
    {
        proof {
            assert(processes@.subrange(0, i + 1).drop_last() =~= processes@.subrange(0, i as int));
        }
        if evaluate_process_conditions(&processes[i], &conditions) {
            results.push(copy_process(&processes[i]));
        }
        proof {
            reveal(Seq::filter);
            assert(processes@.subrange(0, i + 1).last() == processes@[i as int]);
            assert(results@ =~= processes@.subrange(0, i + 1).filter(
                |p: ProcessInfo| proc_conds_hold(p, conditions@),
            ));
        }
        i = i + 1;
    }
    proof {
        assert(processes@.subrange(0, processes@.len() as int) =~= processes@);
    }
    let ghost filtered = processes@.filter(|p: ProcessInfo| proc_conds_hold(p, conditions@));
    match &query.order_by {
        Option::Some(ob) => {
            let _ = sort_process_results(&mut results, ob.as_str(), &query.order_direction);
        },
        Option::None => {},
    }
    let ghost mid = results@;
    apply_limit_proc(&mut results, &query.limit);
    proof {
        assert(proc_select_post(
            *query,
            where_views(query.where_clause),
            processes@,
            results@,
            conditions@,
            mid,
        ));
    }
    Ok(results)
}

/// The first `limit` records of a list, or all of them without a limit
/// or when fewer are there.
pub open spec fn truncated<T>(s: Seq<T>, limit: Option<usize>) -> Seq<T> {
    match limit {
        Option::Some(l) => if l <= s.len() {
            s.subrange(0, l as int)
        } else {
            s
        },
        Option::None => s,
    }
}

fn apply_limit_proc(v: &mut Vec<ProcessInfo>, limit: &Option<usize>)
    ensures
        final(v)@ == truncated(old(v)@, *limit),
{
    match limit {
        Option::Some(l) => {
            if *l <= v.len() {
                v.truncate(*l);
            }
        },
        Option::None => {},
    }
}

fn apply_limit_net(v: &mut Vec<NetInfo>, limit: &Option<usize>)
    ensures
        final(v)@ == truncated(old(v)@, *limit),
{
    match limit {
        Option::Some(l) => {
            if *l <= v.len() {
                v.truncate(*l);
            }
        },
        Option::None => {},
    }
}

fn apply_limit_app(v: &mut Vec<ApplicationInfo>, limit: &Option<usize>)
    ensures
        final(v)@ == truncated(old(v)@, *limit),
{
    match limit {
        Option::Some(l) => {
            if *l <= v.len() {
                v.truncate(*l);
            }
        },
        Option::None => {},
    }
}

fn apply_limit_file(v: &mut Vec<FileInfo>, limit: &Option<usize>)
    ensures
        final(v)@ == truncated(old(v)@, *limit),
{
    match limit {
        Option::Some(l) => {
            if *l <= v.len() {
                v.truncate(*l);
            }
        },
        Option::None => {},
    }
}

/// What an application query's result is built from; the ORDER BY field
/// is taken as written.
pub open spec fn app_select_post(
    query: SqlQuery,
    wtext: Option<Seq<char>>,
    applications: Seq<ApplicationInfo>,
    rs: Seq<ApplicationInfo>,
    cs: Seq<Condition>,
    mid: Seq<ApplicationInfo>,
) -> bool {
    &&& conds_of_where_text(wtext) == Some(shapes_of(cs))
    &&& mid == match query.order_by {
        Option::Some(ob) => sort_spec(
            applications.filter(|a: ApplicationInfo| app_conds_hold(a, cs)),
            ob@,
            is_desc(query.order_direction),
        ),
        Option::None => applications.filter(|a: ApplicationInfo| app_conds_hold(a, cs)),
    }
    &&& rs == truncated(mid, query.limit)
}

/// Some condition list and intermediate order build this application
/// result.
pub open spec fn app_select_witness(
    query: SqlQuery,
    wtext: Option<Seq<char>>,
    applications: Seq<ApplicationInfo>,
    rs: Seq<ApplicationInfo>,
) -> bool {
    exists|cs: Seq<Condition>, mid: Seq<ApplicationInfo>|
        #[trigger] app_select_post(query, wtext, applications, rs, cs, mid)
}

/// Runs a query against already-collected application records, the same
/// way process queries run; the ORDER BY field is taken as written.
pub fn execute_application_query(query: &SqlQuery, applications: &Vec<ApplicationInfo>) -> (r:
    Result<Vec<ApplicationInfo>, String>)
    ensures
        match r {
            Ok(rs) => app_select_witness(
                *query,
                where_views(query.where_clause),
                applications@,
                rs@,
            ),
            Err(e) => conds_of_where(query.where_clause) is None && crate::text::is_at(
                e@,
                0,
                "Invalid condition: "@,
            ),
        },
{
    let conditions = match parse_where(&query.where_clause) {
        Ok(cs) => cs,
        Err(e) => {
            return Err(e);
        },
    };
    let mut results: Vec<ApplicationInfo> = Vec::new();
    let mut i: usize = 0;
    while i < applications.len()
        invariant
            i <= applications@.len(),
            results@ =~= applications@.subrange(0, i as int).filter(
                |a: ApplicationInfo| app_conds_hold(a, conditions@),
            ),
        decreases applications@.len() - i,
    {
        proof {
            assert(applications@.subrange(0, i + 1).drop_last() =~= applications@.subrange(
                0,
                i as int,
            ));
        }
        if evaluate_application_conditions(&applications[i], &conditions) {
            results.push(copy_app(&applications[i]));
        }
        proof {
            reveal(Seq::filter);
            assert(applications@.subrange(0, i + 1).last() == applications@[i as int]);
            assert(results@ =~= applications@.subrange(0, i + 1).filter(
                |a: ApplicationInfo| app_conds_hold(a, conditions@),
            ));
        }
        i = i + 1;
    }
    proof {
        assert(applications@.subrange(0, applications@.len() as int) =~= applications@);
    }
    match &query.order_by {
        Option::Some(ob) => {
            let _ = sort_application_results(&mut results, ob.as_str(), &query.order_direction);
        },
        Option::None => {},
    }
    let ghost mid = results@;
    apply_limit_app(&mut results, &query.limit);
    proof {
        assert(app_select_post(
            *query,
            where_views(query.where_clause),
            applications@,
            results@,
            conditions@,
            mid,
        ));
    }
    Ok(results)
}



/// Whether a field name of the SELECT list asks for everything.
pub open spec fn has_star(fields: Seq<String>) -> bool {
    exists|i: int| 0 <= i < fields.len() && (#[trigger] fields[i])@ == "*"@
}

/// The DISTINCT key of a socket record: the selected fields' values
/// joined by `|` (all three when the list holds `*`).
pub open spec fn net_key(n: NetInfo, fields: Seq<String>) -> Seq<char> {
    if has_star(fields) {
        n.name@ + seq!['|'] + n.port@ + seq!['|'] + n.pid@
    } else {
        net_key_parts(n, fields, 0)
    }
}

/// The known selected fields' values, joined by `|`.
pub open spec fn net_key_parts(n: NetInfo, fields: Seq<String>, i: int) -> Seq<char>
    decreases fields.len() - i + 1,
{
    if i < 0 || i >= fields.len() {
        Seq::empty()
    } else {
        let part = if fields[i]@ == "name"@ {
            Some(n.name@)
        } else if fields[i]@ == "port"@ {
            Some(n.port@)
        } else if fields[i]@ == "pid"@ {
            Some(n.pid@)
        } else {
            None
        };
        let rest = net_key_parts(n, fields, i + 1);
        match part {
            Some(p) => if i + 1 < fields.len() && has_known_field(n, fields, i + 1) {
                p + seq!['|'] + rest
            } else {
                p + rest
            },
            None => rest,
        }
    }
}

/// Some field at or after `i` is one the key includes.
pub open spec fn has_known_field(n: NetInfo, fields: Seq<String>, i: int) -> bool
    decreases fields.len() - i + 1,
{
    if i < 0 || i >= fields.len() {
        false
    } else if fields[i]@ == "name"@ || fields[i]@ == "port"@ || fields[i]@ == "pid"@ {
        true
    } else {
        has_known_field(n, fields, i + 1)
    }
}


fn net_key_exec(n: &NetInfo, fields: &Vec<String>) -> (r: Vec<char>)
    ensures
        r@ == net_key(*n, fields@),
{
    let mut has = false;
    let mut i: usize = 0;
    while i < fields.len()
        invariant
            i <= fields@.len(),
            has == exists|j: int| 0 <= j < i && (#[trigger] fields@[j])@ == "*"@,
        decreases fields@.len() - i,
    {
        let is_star = str_eq(fields[i].as_str(), "*");
        proof {
            assert(is_star == (fields@[i as int]@ == "*"@));
        }
        if is_star {
            has = true;
        }
        i = i + 1;
    }
    if has {
        proof {
            assert(has_star(fields@));
        }
        let mut out = chars_of(n.name.as_str());
        out.push('|');
        push_all(&mut out, &chars_of(n.port.as_str()));
        out.push('|');
        push_all(&mut out, &chars_of(n.pid.as_str()));
        proof {
            assert(out@ =~= net_key(*n, fields@));
        }
        out
    } else {
        proof {
            assert(!has_star(fields@));
        }
        net_key_parts_exec(n, fields, 0)
    }
}

fn net_key_parts_exec(n: &NetInfo, fields: &Vec<String>, i: usize) -> (r: Vec<char>)
    requires
        i <= fields@.len(),
    ensures
        r@ == net_key_parts(*n, fields@, i as int),
    decreases fields@.len() - i,
{
    if i >= fields.len() {
        return Vec::new();
    }
    let f = fields[i].as_str();
    let part: Option<Vec<char>> = if str_eq(f, "name") {
        Some(chars_of(n.name.as_str()))
    } else if str_eq(f, "port") {
        Some(chars_of(n.port.as_str()))
    } else if str_eq(f, "pid") {
        Some(chars_of(n.pid.as_str()))
    } else {
        None
    };
    let rest = net_key_parts_exec(n, fields, i + 1);
    match part {
        Some(p) => {
            let more = i + 1 < fields.len() && has_known_exec(n, fields, i + 1);
            let mut out = p;
            if more {
                out.push('|');
            }
            push_all(&mut out, &rest);
            proof {
                assert(out@ =~= net_key_parts(*n, fields@, i as int));
            }
            out
        },
        None => rest,
    }
}

fn has_known_exec(n: &NetInfo, fields: &Vec<String>, i: usize) -> (r: bool)
    requires
        i <= fields@.len(),
    ensures
        r == has_known_field(*n, fields@, i as int),
    decreases fields@.len() - i,
{
    if i >= fields.len() {
        false
    } else {
        let f = fields[i].as_str();
        if str_eq(f, "name") || str_eq(f, "port") || str_eq(f, "pid") {
            true
        } else {
            has_known_exec(n, fields, i + 1)
        }
    }
}

/// What a socket query's result is built from: the parsed WHERE
/// conditions; when neither DISTINCT nor an ordering intervenes, the
/// result is exactly the kept records, truncated.
pub open spec fn net_select_post(
    query: SqlQuery,
    wtext: Option<Seq<char>>,
    network: Seq<NetInfo>,
    rs: Seq<NetInfo>,
    cs: Seq<Condition>,
) -> bool {
    let filtered = network.filter(|n: NetInfo| net_conds_hold(n, cs));
    let base = if query.distinct {
        dedup_first(filtered, query.select_fields@)
    } else {
        filtered
    };
    &&& conds_of_where_text(wtext) == Some(shapes_of(cs))
    &&& rs == match query.order_by {
        Option::Some(ob) => truncated(
            sort_spec(base, ob@, is_desc(query.order_direction)),
            query.limit,
        ),
        Option::None => truncated(base, query.limit),
    }
}

/// The text of an ORDER BY field, empty when there is none.
pub open spec fn order_text(ob: Option<String>) -> Seq<char> {
    match ob {
        Option::Some(t) => t@,
        Option::None => Seq::empty(),
    }
}

/// Some record of the list carries this DISTINCT key.
pub open spec fn has_key(s: Seq<NetInfo>, fields: Seq<String>, key: Seq<char>) -> bool {
    exists|i: int| 0 <= i < s.len() && net_key(#[trigger] s[i], fields) == key
}

/// The list with every record whose DISTINCT key already appeared
/// removed: the first occurrence of each key is kept, in order.
pub open spec fn dedup_first(s: Seq<NetInfo>, fields: Seq<String>) -> Seq<NetInfo>
    decreases s.len(),
{
    if s.len() == 0 {
        Seq::empty()
    } else {
        let rest = dedup_first(s.drop_last(), fields);
        if has_key(s.drop_last(), fields, net_key(s.last(), fields)) {
            rest
        } else {
            rest.push(s.last())
        }
    }
}

/// Deduplication keeps exactly the keys that were there.
proof fn lemma_dedup_keys(s: Seq<NetInfo>, fields: Seq<String>, key: Seq<char>)
    ensures
        has_key(dedup_first(s, fields), fields, key) == has_key(s, fields, key),
    decreases s.len(),
{
    if s.len() > 0 {
        lemma_dedup_keys(s.drop_last(), fields, key);
        let d = s.drop_last();
        let rest = dedup_first(d, fields);
        // Splitting a key search over the last element.
        assert(has_key(s, fields, key) == (has_key(d, fields, key) || net_key(s.last(), fields)
            == key)) by {
            if has_key(s, fields, key) {
                let i = choose|i: int| 0 <= i < s.len() && net_key(#[trigger] s[i], fields)
                    == key;
                if i < s.len() - 1 {
                    assert(net_key(d[i], fields) == key);
                }
            }
            if has_key(d, fields, key) {
                let i = choose|i: int| 0 <= i < d.len() && net_key(#[trigger] d[i], fields)
                    == key;
                assert(net_key(s[i], fields) == key);
            }
            if net_key(s.last(), fields) == key {
                assert(net_key(s[s.len() - 1], fields) == key);
            }
        };
        if !has_key(d, fields, net_key(s.last(), fields)) {
            assert(has_key(rest.push(s.last()), fields, key) == (has_key(rest, fields, key)
                || net_key(s.last(), fields) == key)) by {
                if has_key(rest.push(s.last()), fields, key) {
                    let i = choose|i: int|
                        0 <= i < rest.push(s.last()).len() && net_key(
                            #[trigger] rest.push(s.last())[i],
                            fields,
                        ) == key;
                    if i < rest.len() {
                        assert(net_key(rest[i], fields) == key);
                    }
                }
                if has_key(rest, fields, key) {
                    let i = choose|i: int|
                        0 <= i < rest.len() && net_key(#[trigger] rest[i], fields) == key;
                    assert(net_key(rest.push(s.last())[i], fields) == key);
                }
                if net_key(s.last(), fields) == key {
                    assert(net_key(rest.push(s.last())[rest.len() as int], fields) == key);
                }
            };
        }
    }
}

/// Some condition list builds this socket result.
pub open spec fn net_select_witness(
    query: SqlQuery,
    wtext: Option<Seq<char>>,
    network: Seq<NetInfo>,
    rs: Seq<NetInfo>,
) -> bool {
    exists|cs: Seq<Condition>| #[trigger] net_select_post(query, wtext, network, rs, cs)
}

/// Runs a query against already-collected socket records: filter,
/// DISTINCT over the selected fields' values when asked for, sort (only
/// `name`, `port` and `pid` may be ordered by), and truncate.
pub fn execute_network_query(query: &SqlQuery, network: &Vec<NetInfo>) -> (r: Result<
    Vec<NetInfo>,
    String,
>)
    ensures
        r matches Err(e) ==> {
            ||| (conds_of_where(query.where_clause) is None && crate::text::is_at(
                e@,
                0,
                "Invalid condition: "@,
            ))
            ||| (conds_of_where(query.where_clause) is Some && (query.order_by matches Some(ob)
                && !(ob@ == "name"@ || ob@ == "port"@ || ob@ == "pid"@)) && e@
                == "Invalid ORDER BY field: "@ + order_text(query.order_by))
        },
        r matches Ok(rs) ==> net_select_witness(
            *query,
            where_views(query.where_clause),
            network@,
            rs@,
        ),
{
    let conditions = match parse_where(&query.where_clause) {
        Ok(cs) => cs,
        Err(e) => {
            return Err(e);
        },
    };
    let mut results: Vec<NetInfo> = Vec::new();
    let mut i: usize = 0;
    while i < network.len()
        invariant
            i <= network@.len(),
            results@ =~= network@.subrange(0, i as int).filter(
                |n: NetInfo| net_conds_hold(n, conditions@),
            ),
        decreases network@.len() - i,
    {
        proof {
            assert(network@.subrange(0, i + 1).drop_last() =~= network@.subrange(0, i as int));
        }
        if evaluate_network_conditions(&network[i], &conditions) {
            results.push(copy_net(&network[i]));
        }
        proof {
            reveal(Seq::filter);
            assert(network@.subrange(0, i + 1).last() == network@[i as int]);
            assert(results@ =~= network@.subrange(0, i + 1).filter(
                |n: NetInfo| net_conds_hold(n, conditions@),
            ));
        }
        i = i + 1;
    }
    proof {
        assert(network@.subrange(0, network@.len() as int) =~= network@);
    }
    let ghost filtered = results@;
    if query.distinct {
        // Keep the first record of every DISTINCT key.
        let mut unique: Vec<NetInfo> = Vec::new();
        let mut seen: Vec<Vec<char>> = Vec::new();
        let mut j: usize = 0;
        while j < results.len()
            invariant
                j <= results@.len(),
                results@ == filtered,
                unique@ == dedup_first(results@.subrange(0, j as int), query.select_fields@),
                seen@.len() == unique@.len(),
                forall|k: int|
                    0 <= k < seen@.len() ==> (#[trigger] seen@[k])@ == net_key(
                        unique@[k],
                        query.select_fields@,
                    ),
            decreases results@.len() - j,
        {
            let ghost prefix = results@.subrange(0, j as int);
            let key = net_key_exec(&results[j], &query.select_fields);
            let mut dup = false;
            let mut k: usize = 0;
            while k < seen.len()
                invariant
                    k <= seen@.len(),
                    key@ == net_key(results@[j as int], query.select_fields@),
                    j < results@.len(),
                    dup == exists|k2: int|
                        0 <= k2 < k && (#[trigger] seen@[k2])@ == key@,
                decreases seen@.len() - k,
            {
                if chars_eq(&seen[k], &key) {
                    dup = true;
                }
                k = k + 1;
            }
            proof {
                // What the seen list says is what the kept records carry,
                // and deduplication keeps exactly the keys of the prefix.
                assert(dup == has_key(unique@, query.select_fields@, key@)) by {
                    if dup {
                        let k2 = choose|k2: int|
                            0 <= k2 < seen@.len() && (#[trigger] seen@[k2])@ == key@;
                        assert(net_key(unique@[k2], query.select_fields@) == key@);
                    }
                    if has_key(unique@, query.select_fields@, key@) {
                        let i = choose|i: int|
                            0 <= i < unique@.len() && net_key(
                                #[trigger] unique@[i],
                                query.select_fields@,
                            ) == key@;
                        assert(seen@[i]@ == key@);
                    }
                };
                lemma_dedup_keys(prefix, query.select_fields@, key@);
                assert(dup == has_key(prefix, query.select_fields@, key@));
                assert(results@.subrange(0, j + 1).drop_last() =~= prefix);
                assert(results@.subrange(0, j + 1).last() == results@[j as int]);
            }
            if !dup {
                unique.push(copy_net(&results[j]));
                seen.push(key);
            }
            j = j + 1;
        }
        proof {
            assert(results@.subrange(0, results@.len() as int) =~= results@);
        }
        results = unique;
    }
    let ghost base = results@;
    match &query.order_by {
        Option::Some(ob) => {
            match sort_network_results(&mut results, ob.as_str(), &query.order_direction) {
                Ok(()) => {},
                Err(e) => {
                    return Err(e);
                },
            }
        },
        Option::None => {},
    }
    apply_limit_net(&mut results, &query.limit);
    proof {
        assert(net_select_post(
            *query,
            where_views(query.where_clause),
            network@,
            results@,
            conditions@,
        ));
    }
    Ok(results)
}

// ---------------------------------------------------------------------------
// Deletion planning
// ---------------------------------------------------------------------------

/// What a delete plan is built from: the parsed WHERE conditions and the
/// traversal of the snapshot that names the target.
pub open spec fn delete_plan_post(
    query: SqlQuery,
    sources: Sources,
    fs: Seq<FileInfo>,
    cs: Seq<Condition>,
    k: int,
) -> bool {
    &&& conds_of_where(query.where_clause) == Some(shapes_of(cs))
    &&& 0 <= k < sources.filesystems@.len()
    &&& sources.filesystems@[k].0@ == query.from_path@
    &&& views_of(fs) == traverse_spec(sources.filesystems@[k].1, Seq::empty(), cs)
}

/// Some condition list and snapshot build this delete plan.
pub open spec fn delete_plan_witness(query: SqlQuery, sources: Sources, fs: Seq<FileInfo>) -> bool {
    exists|cs: Seq<Condition>, k: int| #[trigger] delete_plan_post(query, sources, fs, cs, k)
}

/// No snapshot the executor was handed carries this target path.
pub open spec fn no_snapshot(sources: Sources, path: Seq<char>) -> bool {
    forall|k: int|
        0 <= k < sources.filesystems@.len() ==> (#[trigger] sources.filesystems@[k]).0@ != path
}

/// Why a delete plan fails: an unclassifiable WHERE clause, or a target
/// no snapshot carries — each with its message.
pub open spec fn delete_err(query: SqlQuery, sources: Sources, e: Seq<char>) -> bool {
    ||| (conds_of_where(query.where_clause) is None && crate::text::is_at(
        e,
        0,
        "Invalid condition: "@,
    ))
    ||| (no_snapshot(sources, query.from_path@) && e == "Path does not exist: "@
        + query.from_path@)
}

/// Finds the snapshot whose path names the query's target, collects every
/// entry the WHERE conditions match, and hands the list back: these are
/// the entities a delete would remove. Nothing is removed here; the
/// caller holds the confirmation rule below to the list first.
pub fn plan_delete(query: &SqlQuery, sources: &Sources) -> (r: Result<Vec<FileInfo>, String>)
    ensures
        match r {
            Ok(fs) => delete_plan_witness(*query, *sources, fs@),
            Err(e) => delete_err(*query, *sources, e@),
        },
{
    let mut k: usize = 0;
    let mut found: Option<usize> = None;
    while k < sources.filesystems.len()
        invariant
            k <= sources.filesystems@.len(),
            match found {
                Some(f) => f < k <= sources.filesystems@.len()
                    && sources.filesystems@[f as int].0@ == query.from_path@,
                None => forall|j: int|
                    0 <= j < k ==> (#[trigger] sources.filesystems@[j]).0@ != query.from_path@,
            },
        decreases sources.filesystems@.len() - k,
    {
        if found.is_none() && str_eq(sources.filesystems[k].0.as_str(), query.from_path.as_str()) {
            found = Some(k);
        }
        k = k + 1;
    }
    let fk = match found {
        Some(f) => f,
        None => {
            let mut msg = chars_of("Path does not exist: ");
            push_all(&mut msg, &chars_of(query.from_path.as_str()));
            return Err(string_of(&msg));
        },
    };
    let conditions = match parse_where(&query.where_clause) {
        Ok(cs) => cs,
        Err(e) => {
            return Err(e);
        },
    };
    let rel: Vec<char> = Vec::new();
    let out = collect_files_model(&sources.filesystems[fk].1, &rel, &conditions);
    proof {
        assert(rel@ =~= Seq::<char>::empty());
        assert(delete_plan_post(*query, *sources, out@, conditions@, fk as int));
    }
    Ok(out)
}

/// Whether removing this many matched entities needs the operator's
/// explicit confirmation first: more than one does, one does not.
pub fn delete_requires_confirmation(matched: usize) -> (r: bool)
    ensures
        r == (matched > 1),
{
    matched > 1
}

/// Whether a delete goes ahead: a single match proceeds unprompted, more
/// only with confirmation given. When it does not go ahead, nothing at
/// all is to be removed.
pub fn delete_proceeds(matched: usize, confirmed: bool) -> (r: bool)
    ensures
        r == (matched <= 1 || confirmed),
{
    matched <= 1 || confirmed
}


// ---------------------------------------------------------------------------
// The top-level executor
// ---------------------------------------------------------------------------

fn copy_file(f: &FileInfo) -> (r: FileInfo)
    ensures
        r == *f,
{
    FileInfo {
        name: f.name.clone(),
        file_type: f.file_type.clone(),
        modified_date: f.modified_date,
        permissions: f.permissions.clone(),
        size: f.size.clone(),
        path: f.path.clone(),
        depth: f.depth,
        extension: clone_opt_exact(&f.extension),
    }
}

fn copy_result(r: &QueryResult) -> (out: QueryResult)
{
    match r {
        QueryResult::Files(fs) => {
            let mut v: Vec<FileInfo> = Vec::new();
            let mut i: usize = 0;
            while i < fs.len()
                invariant
                    i <= fs@.len(),
                    v@ =~= fs@.subrange(0, i as int),
                decreases fs@.len() - i,
            {
                v.push(copy_file(&fs[i]));
                i = i + 1;
            }
            QueryResult::Files(v)
        },
        QueryResult::Processes(ps) => {
            let mut v: Vec<ProcessInfo> = Vec::new();
            let mut i: usize = 0;
            while i < ps.len()
                invariant
                    i <= ps@.len(),
                    v@ =~= ps@.subrange(0, i as int),
                decreases ps@.len() - i,
            {
                v.push(copy_process(&ps[i]));
                i = i + 1;
            }
            QueryResult::Processes(v)
        },
        QueryResult::Network(ns) => {
            let mut v: Vec<NetInfo> = Vec::new();
            let mut i: usize = 0;
            while i < ns.len()
                invariant
                    i <= ns@.len(),
                    v@ =~= ns@.subrange(0, i as int),
                decreases ns@.len() - i,
            {
                v.push(copy_net(&ns[i]));
                i = i + 1;
            }
            QueryResult::Network(v)
        },
        QueryResult::Applications(aps) => {
            let mut v: Vec<ApplicationInfo> = Vec::new();
            let mut i: usize = 0;
            while i < aps.len()
                invariant
                    i <= aps@.len(),
                    v@ =~= aps@.subrange(0, i as int),
                decreases aps@.len() - i,
            {
                v.push(copy_app(&aps[i]));
                i = i + 1;
            }
            QueryResult::Applications(v)
        },
    }
}

/// The placeholder spelled `prefix`, then the index in decimal, then two
/// underscores.
pub open spec fn sub_key(prefix: Seq<char>, idx: nat) -> Seq<char> {
    prefix + dec_str(idx) + "__"@
}

/// Builds the placeholder name `prefix` + index + `__`.
fn placeholder_name(prefix: &str, idx: u64) -> (r: String)
    ensures
        r@ == sub_key(prefix@, idx as nat),
{
    let mut v = chars_of(prefix);
    push_all(&mut v, &fmt_u64(idx));
    push_all(&mut v, &chars_of("__"));
    proof {
        assert(v@ =~= sub_key(prefix@, idx as nat));
    }
    string_of(&v)
}

/// The shape of the placeholder list the executor builds: three spellings
/// per WHERE subquery, indexed from zero, then one per SELECT subquery,
/// the indices continuing.
pub open spec fn pairs_shape(pairs: Seq<(String, QueryResult)>, n_w: nat, n_s: nat) -> bool {
    &&& pairs.len() == 3 * n_w + n_s
    &&& forall|i: int|
        0 <= i < n_w ==> {
            &&& (#[trigger] pairs[3 * i]).0@ == sub_key("__SUBQUERY_"@, i as nat)
            &&& pairs[3 * i + 1].0@ == sub_key("__EXISTS_SUBQUERY_"@, i as nat)
            &&& pairs[3 * i + 2].0@ == sub_key("__SCALAR_SUBQUERY_"@, i as nat)
        }
    &&& forall|j: int|
        0 <= j < n_s ==> (#[trigger] pairs[3 * n_w + j]).0@ == sub_key(
            "__SELECT_SUBQUERY_"@,
            (n_w + j) as nat,
        )
}

/// The WHERE text after the subquery results are spliced in.
pub open spec fn spliced_where(w: Option<String>, pairs: Seq<(String, QueryResult)>) -> Option<
    Seq<char>,
> {
    match w {
        Option::Some(t) => Some(rewrite_all(t@, pairs)),
        Option::None => None,
    }
}

/// Whether the query nests any subqueries.
pub open spec fn has_subqueries(query: SqlQuery) -> bool {
    query.where_subqueries@.len() + query.select_subqueries@.len() > 0
}

/// What a filesystem SELECT's result is built from: the WHERE conditions,
/// the snapshot named by the target, the traversal's records, and the
/// sorted, truncated list handed back.
pub open spec fn fs_select_post(
    query: SqlQuery,
    wtext: Option<Seq<char>>,
    sources: Sources,
    fs: Seq<FileInfo>,
    cs: Seq<Condition>,
    k: int,
    raw: Seq<FileInfo>,
    mid: Seq<FileInfo>,
) -> bool {
    &&& conds_of_where_text(wtext) == Some(shapes_of(cs))
    &&& 0 <= k < sources.filesystems@.len()
    &&& sources.filesystems@[k].0@ == query.from_path@
    &&& views_of(raw) == traverse_spec(sources.filesystems@[k].1, Seq::empty(), cs)
    &&& mid == match query.order_by {
        Option::Some(ob) => sort_spec(raw, norm_field(ob@), is_desc(query.order_direction)),
        Option::None => raw,
    }
    &&& fs == truncated(mid, query.limit)
}

/// Some condition list, snapshot and intermediate lists build this result.
pub open spec fn fs_select_witness(
    query: SqlQuery,
    wtext: Option<Seq<char>>,
    sources: Sources,
    fs: Seq<FileInfo>,
) -> bool {
    exists|cs: Seq<Condition>, k: int, raw: Seq<FileInfo>, mid: Seq<FileInfo>|
        #[trigger] fs_select_post(query, wtext, sources, fs, cs, k, raw, mid)
}

/// Where a SELECT's result comes from, by target: the source's own
/// witness, each stated over the WHERE text with the subquery results
/// spliced in.
pub open spec fn select_dispatch_post(
    query: SqlQuery,
    sources: Sources,
    res: QueryResult,
    pairs: Seq<(String, QueryResult)>,
) -> bool {
    let w2 = spliced_where(query.where_clause, pairs);
    if query.from_path@ == "ps"@ {
        res matches QueryResult::Processes(rs) && proc_select_witness(
            query,
            w2,
            sources.processes@,
            rs@,
        )
    } else if query.from_path@ == "net"@ {
        res matches QueryResult::Network(rs) && net_select_witness(
            query,
            w2,
            sources.network@,
            rs@,
        )
    } else if query.from_path@ == "applications"@ {
        res matches QueryResult::Applications(rs) && app_select_witness(
            query,
            w2,
            sources.applications@,
            rs@,
        )
    } else {
        res matches QueryResult::Files(fs) && fs_select_witness(query, w2, sources, fs@)
    }
}

/// Why a SELECT fails. For a query without subqueries the causes are
/// exact, each with its message: an unclassifiable WHERE clause, a socket
/// ORDER BY naming a field that cannot be ordered by, or a filesystem
/// target no snapshot carries. When the query nests subqueries, a failure
/// may also come from a nested run, which no predicate of the inputs
/// alone can pin down; the first disjunct covers that case.
pub open spec fn select_err(query: SqlQuery, sources: Sources, e: Seq<char>) -> bool {
    ||| has_subqueries(query)
    ||| (conds_of_where(query.where_clause) is None && crate::text::is_at(
        e,
        0,
        "Invalid condition: "@,
    ))
    ||| (query.from_path@ == "net"@ && (query.order_by matches Some(ob) && !(ob@ == "name"@
        || ob@ == "port"@ || ob@ == "pid"@)) && e == "Invalid ORDER BY field: "@ + order_text(
        query.order_by,
    ))
    ||| (query.from_path@ != "ps"@ && query.from_path@ != "net"@ && query.from_path@
        != "applications"@ && no_snapshot(sources, query.from_path@) && e
        == "Path does not exist: "@ + query.from_path@)
}

/// Copies a query, giving it the spliced WHERE text and no nested
/// subqueries of its own; every other field carries over.
fn with_where(query: &SqlQuery, w: Option<String>) -> (r: SqlQuery)
    ensures
        r.query_type == query.query_type,
        r.distinct == query.distinct,
        r.select_fields@ == query.select_fields@,
        r.select_field_aliases@ == query.select_field_aliases@,
        r.select_subqueries@.len() == 0,
        r.from_path == query.from_path,
        where_views(r.where_clause) == where_views(w),
        r.where_subqueries@.len() == 0,
        r.order_by == query.order_by,
        r.order_direction == query.order_direction,
        r.limit == query.limit,
{
    let mut fields: Vec<String> = Vec::new();
    let mut i: usize = 0;
    while i < query.select_fields.len()
        invariant
            i <= query.select_fields@.len(),
            fields@ =~= query.select_fields@.subrange(0, i as int),
        decreases query.select_fields@.len() - i,
    {
        fields.push(query.select_fields[i].clone());
        i = i + 1;
    }
    let mut aliases: Vec<Option<String>> = Vec::new();
    let mut j: usize = 0;
    while j < query.select_field_aliases.len()
        invariant
            j <= query.select_field_aliases@.len(),
            aliases@ =~= query.select_field_aliases@.subrange(0, j as int),
        decreases query.select_field_aliases@.len() - j,
    {
        aliases.push(clone_opt_exact(&query.select_field_aliases[j]));
        j = j + 1;
    }
    proof {
        assert(fields@ =~= query.select_fields@);
        assert(aliases@ =~= query.select_field_aliases@);
    }
    SqlQuery {
        query_type: match query.query_type {
            QueryType::Select => QueryType::Select,
            QueryType::Delete => QueryType::Delete,
        },
        distinct: query.distinct,
        select_fields: fields,
        select_field_aliases: aliases,
        select_subqueries: Vec::new(),
        from_path: query.from_path.clone(),
        where_clause: w,
        where_subqueries: Vec::new(),
        order_by: clone_opt_exact(&query.order_by),
        order_direction: match query.order_direction {
            SortDirection::Ascending => SortDirection::Ascending,
            SortDirection::Descending => SortDirection::Descending,
        },
        limit: query.limit,
    }
}

/// Runs a structured query against the injected sources.
///
/// A DELETE hands back the matched entities as a file result without
/// removing anything — the caller applies the confirmation rule and does
/// the removing. A SELECT first executes every nested subquery
/// depth-first and splices the results into the WHERE text, then
/// dispatches on the target: the process table for `ps`, the socket table
/// for `net`, the application inventory for `applications`, and a
/// filesystem snapshot (traversed, sorted, truncated) for anything else.
pub fn execute_query(query: &SqlQuery, sources: &Sources) -> (r: Result<QueryResult, String>)
    ensures
        match r {
            Ok(res) => {
                &&& query.query_type == QueryType::Delete ==> (res matches QueryResult::Files(fs)
                    && delete_plan_witness(*query, *sources, fs@))
                &&& query.query_type == QueryType::Select ==> exists|
                    pairs: Seq<(String, QueryResult)>,
                |
                    {
                        &&& #[trigger] pairs_shape(
                            pairs,
                            query.where_subqueries@.len() as nat,
                            query.select_subqueries@.len() as nat,
                        )
                        &&& select_dispatch_post(*query, *sources, res, pairs)
                    }
            },
            Err(e) => {
                ||| (query.query_type == QueryType::Delete && delete_err(*query, *sources, e@))
                ||| (query.query_type == QueryType::Select && select_err(*query, *sources, e@))
            },
        },
    decreases *query,
{
    broadcast use vstd::std_specs::vec::axiom_vec_index_decreases;

    proof {
        reveal_strlit("ps");
        reveal_strlit("net");
        reveal_strlit("applications");
        assert("ps"@ != "net"@ && "ps"@ != "applications"@ && "net"@ != "applications"@) by {
            assert("ps"@.len() == 2 && "net"@.len() == 3 && "applications"@.len() == 12);
        };
    }
    if query.query_type == QueryType::Delete {
        let planned = plan_delete(query, sources);
        return match planned {
            Ok(fs) => Ok(QueryResult::Files(fs)),
            Err(e) => Err(e),
        };
    }
    let n_w = query.where_subqueries.len();
    let n_s = query.select_subqueries.len();
    // Execute nested subqueries depth-first and remember their results
    // under every placeholder spelling the WHERE text may use.
    let mut pairs: Vec<(String, QueryResult)> = Vec::new();
    let mut si: usize = 0;
    while si < n_w
        invariant
            si <= n_w == query.where_subqueries@.len(),
            query.query_type == QueryType::Select,
            pairs_shape(pairs@, si as nat, 0),
        decreases n_w - si,
    {
        let sub = &query.where_subqueries[si];
        proof {
            assert(decreases_to!(*query => query.where_subqueries));
        }
        let res = match execute_query(&sub.query, sources) {
            Ok(res) => res,
            Err(e) => {
                proof {
                    assert(has_subqueries(*query));
                }
                return Err(e);
            },
        };
        let ghost pre = pairs@;
        pairs.push((placeholder_name("__SUBQUERY_", si as u64), copy_result(&res)));
        pairs.push((placeholder_name("__EXISTS_SUBQUERY_", si as u64), copy_result(&res)));
        pairs.push((placeholder_name("__SCALAR_SUBQUERY_", si as u64), res));
        proof {
            assert forall|i: int| 0 <= i < si + 1 implies {
                &&& (#[trigger] pairs@[3 * i]).0@ == sub_key("__SUBQUERY_"@, i as nat)
                &&& pairs@[3 * i + 1].0@ == sub_key("__EXISTS_SUBQUERY_"@, i as nat)
                &&& pairs@[3 * i + 2].0@ == sub_key("__SCALAR_SUBQUERY_"@, i as nat)
            } by {
                if i < si {
                    assert(pairs@[3 * i] == pre[3 * i]);
                    assert(pairs@[3 * i + 1] == pre[3 * i + 1]);
                    assert(pairs@[3 * i + 2] == pre[3 * i + 2]);
                }
            }
        }
        si = si + 1;
    }
    let mut qi: usize = 0;
    while qi < n_s
        invariant
            qi <= n_s == query.select_subqueries@.len(),
            n_w == query.where_subqueries@.len(),
            query.query_type == QueryType::Select,
            pairs_shape(pairs@, n_w as nat, qi as nat),
        decreases n_s - qi,
    {
        let sub = &query.select_subqueries[qi];
        proof {
            assert(decreases_to!(*query => query.select_subqueries));
        }
        let res = match execute_query(&sub.query, sources) {
            Ok(res) => res,
            Err(e) => {
                proof {
                    assert(has_subqueries(*query));
                }
                return Err(e);
            },
        };
        let pl = pairs.len();
        proof {
            assert(pl == 3 * n_w + qi);
        }
        let ghost pre = pairs@;
        pairs.push((placeholder_name("__SELECT_SUBQUERY_", (pl - qi) as u64 / 3 + qi as u64), res));
        proof {
            assert((pl - qi) / 3 == n_w);
            assert forall|j: int| 0 <= j < qi + 1 implies (#[trigger] pairs@[3 * n_w + j]).0@
                == sub_key("__SELECT_SUBQUERY_"@, (n_w + j) as nat) by {
                if j < qi {
                    assert(pairs@[3 * n_w + j] == pre[3 * n_w + j]);
                }
            }
            assert forall|i: int| 0 <= i < n_w implies {
                &&& (#[trigger] pairs@[3 * i]).0@ == sub_key("__SUBQUERY_"@, i as nat)
                &&& pairs@[3 * i + 1].0@ == sub_key("__EXISTS_SUBQUERY_"@, i as nat)
                &&& pairs@[3 * i + 2].0@ == sub_key("__SCALAR_SUBQUERY_"@, i as nat)
            } by {
                assert(pairs@[3 * i] == pre[3 * i]);
                assert(pairs@[3 * i + 1] == pre[3 * i + 1]);
                assert(pairs@[3 * i + 2] == pre[3 * i + 2]);
            }
        }
        qi = qi + 1;
    }
    // Splice the subquery results into the WHERE text.
    let spliced: Option<String> = match &query.where_clause {
        Option::Some(w) => Some(process_where_subquery_placeholders(w.as_str(), &pairs)),
        Option::None => None,
    };
    proof {
        assert(where_views(spliced) == spliced_where(query.where_clause, pairs@));
        if !has_subqueries(*query) {
            assert(pairs@.len() == 0);
            match &query.where_clause {
                Option::Some(w) => {
                    assert(rewrite_all(w@, pairs@) == w@);
                },
                Option::None => {},
            }
            assert(where_views(spliced) == where_views(query.where_clause));
        }
    }
    // Dispatch on the target.
    if str_eq(query.from_path.as_str(), "ps") {
        let q2 = with_where(query, spliced);
        return match execute_process_query(&q2, &sources.processes) {
            Ok(rs) => {
                proof {
                    let (cs, mid) = choose|cs: Seq<Condition>, mid: Seq<ProcessInfo>|
                        proc_select_post(
                            q2,
                            where_views(q2.where_clause),
                            sources.processes@,
                            rs@,
                            cs,
                            mid,
                        );
                    assert(proc_select_post(
                        *query,
                        spliced_where(query.where_clause, pairs@),
                        sources.processes@,
                        rs@,
                        cs,
                        mid,
                    ));
                    assert(select_dispatch_post(
                        *query,
                        *sources,
                        QueryResult::Processes(rs),
                        pairs@,
                    ));
                }
                Ok(QueryResult::Processes(rs))
            },
            Err(e) => {
                proof {
                    if !has_subqueries(*query) {
                        assert(conds_of_where(query.where_clause) is None);
                    }
                }
                Err(e)
            },
        };
    }
    if str_eq(query.from_path.as_str(), "net") {
        let q2 = with_where(query, spliced);
        return match execute_network_query(&q2, &sources.network) {
            Ok(rs) => {
                proof {
                    let cs = choose|cs: Seq<Condition>|
                        net_select_post(
                            q2,
                            where_views(q2.where_clause),
                            sources.network@,
                            rs@,
                            cs,
                        );
                    assert(net_select_post(
                        *query,
                        spliced_where(query.where_clause, pairs@),
                        sources.network@,
                        rs@,
                        cs,
                    ));
                    assert(select_dispatch_post(
                        *query,
                        *sources,
                        QueryResult::Network(rs),
                        pairs@,
                    ));
                }
                Ok(QueryResult::Network(rs))
            },
            Err(e) => {
                proof {
                    if !has_subqueries(*query) {
                        assert(select_err(*query, *sources, e@));
                    }
                }
                Err(e)
            },
        };
    }
    if str_eq(query.from_path.as_str(), "applications") {
        let q2 = with_where(query, spliced);
        return match execute_application_query(&q2, &sources.applications) {
            Ok(rs) => {
                proof {
                    let (cs, mid) = choose|cs: Seq<Condition>, mid: Seq<ApplicationInfo>|
                        app_select_post(
                            q2,
                            where_views(q2.where_clause),
                            sources.applications@,
                            rs@,
                            cs,
                            mid,
                        );
                    assert(app_select_post(
                        *query,
                        spliced_where(query.where_clause, pairs@),
                        sources.applications@,
                        rs@,
                        cs,
                        mid,
                    ));
                    assert(select_dispatch_post(
                        *query,
                        *sources,
                        QueryResult::Applications(rs),
                        pairs@,
                    ));
                }
                Ok(QueryResult::Applications(rs))
            },
            Err(e) => {
                proof {
                    if !has_subqueries(*query) {
                        assert(conds_of_where(query.where_clause) is None);
                    }
                }
                Err(e)
            },
        };
    }
    // A filesystem target: find its snapshot.
    let mut k: usize = 0;
    let mut found: Option<usize> = None;
    while k < sources.filesystems.len()
        invariant
            k <= sources.filesystems@.len(),
            match found {
                Some(f) => f < sources.filesystems@.len() && sources.filesystems@[f as int].0@
                    == query.from_path@,
                None => forall|j: int|
                    0 <= j < k ==> (#[trigger] sources.filesystems@[j]).0@ != query.from_path@,
            },
        decreases sources.filesystems@.len() - k,
    {
        if found.is_none() && str_eq(sources.filesystems[k].0.as_str(), query.from_path.as_str()) {
            found = Some(k);
        }
        k = k + 1;
    }
    let fk = match found {
        Some(f) => f,
        None => {
            let mut msg = chars_of("Path does not exist: ");
            push_all(&mut msg, &chars_of(query.from_path.as_str()));
            return Err(string_of(&msg));
        },
    };
    // Parse the spliced WHERE text.
    let conditions = match parse_where(&spliced) {
        Ok(cs) => cs,
        Err(e) => {
            proof {
                if !has_subqueries(*query) {
                    assert(conds_of_where(query.where_clause) is None);
                }
            }
            return Err(e);
        },
    };
    let rel: Vec<char> = Vec::new();
    let mut results = collect_files_model(&sources.filesystems[fk].1, &rel, &conditions);
    proof {
        assert(rel@ =~= Seq::<char>::empty());
    }
    let ghost raw = results@;
    match &query.order_by {
        Option::Some(ob) => {
            let _ = sort_results(&mut results, ob.as_str(), &query.order_direction);
        },
        Option::None => {},
    }
    let ghost mid = results@;
    apply_limit_file(&mut results, &query.limit);
    proof {
        assert(fs_select_post(
            *query,
            spliced_where(query.where_clause, pairs@),
            *sources,
            results@,
            conditions@,
            fk as int,
            raw,
            mid,
        ));
        assert(select_dispatch_post(
            *query,
            *sources,
            QueryResult::Files(results),
            pairs@,
        ));
    }
    Ok(QueryResult::Files(results))
}

} // verus!
