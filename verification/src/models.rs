//! The data model: records for each source, the structured query, and
//! conditions.

use vstd::prelude::*;
use crate::text::{dec_str, lower_seq, fmt_u64, subvec, lower_vec, string_of, digit_char};
use crate::size::{format_size_spec, format_size};

verus! {

/// One filesystem entry, as the traversal emits it. A lightweight record
/// carries only name, kind, path and depth; the expensive fields keep their
/// defaults until the record is upgraded.
#[derive(Debug, Clone)]
pub struct FileInfo {
    pub name: String,
    pub file_type: String,
    /// Modification time, in whole seconds since the Unix epoch.
    pub modified_date: i64,
    pub permissions: String,
    pub size: String,
    pub path: String,
    pub depth: usize,
    pub extension: Option<String>,
}

/// Position of the last dot of `s`, if any.
pub open spec fn last_dot(s: Seq<char>) -> Option<int>
    decreases s.len(),
{
    if s.len() == 0 {
        None
    } else if s.last() == '.' {
        Some(s.len() - 1)
    } else {
        last_dot(s.drop_last())
    }
}

/// The extension a file name carries: the lower-cased text after its last
/// dot, provided the dot is neither the first nor the last character.
/// Directories never carry one.
pub open spec fn extension_spec(name: Seq<char>, is_directory: bool) -> Option<Seq<char>> {
    if is_directory {
        None
    } else {
        match last_dot(name) {
            None => None,
            Some(d) => if d > 0 && d < name.len() - 1 {
                Some(lower_seq(name.subrange(d + 1, name.len() as int)))
            } else {
                None
            },
        }
    }
}

/// How many path segments a relative path has: maximal runs of characters
/// other than `/`. The root's own (empty) relative path has none.
pub open spec fn seg_count(s: Seq<char>) -> nat
    decreases s.len(),
{
    if s.len() == 0 {
        0
    } else {
        seg_count(s.drop_last()) + if s.last() != '/' && (s.len() == 1 || s[s.len() - 2] == '/') {
            1 as nat
        } else {
            0 as nat
        }
    }
}

/// Depth of an entry below the traversal root, measured on its relative
/// path: the number of path segments, with the root itself at 0.
pub fn path_depth(rel_path: &str) -> (r: usize)
    ensures
        r == seg_count(rel_path@) || seg_count(rel_path@) > usize::MAX,
{
    let v = crate::text::chars_of(rel_path);
    let mut count: usize = 0;
    let mut i: usize = 0;
    while i < v.len()
        invariant
            i <= v@.len(),
            count == seg_count(v@.subrange(0, i as int)) || seg_count(v@.subrange(0, i as int))
                > usize::MAX,
        decreases v@.len() - i,
    {
        proof {
            let pre = v@.subrange(0, i + 1);
            assert(pre.drop_last() =~= v@.subrange(0, i as int));
        }
        if v[i] != '/' && (i == 0 || v[i - 1] == '/') {
            if count < usize::MAX {
                count = count + 1;
            } else {
                proof {
                    assert(seg_count(v@.subrange(0, i + 1)) > usize::MAX);
                }
            }
        }
        i = i + 1;
    }
    proof {
        assert(v@.subrange(0, v@.len() as int) =~= v@);
    }
    count
}

impl FileInfo {
    /// The extension of `filename`: the lower-cased text after the last
    /// dot, unless the name is a directory's, starts with that dot, or
    /// ends in it.
    pub fn extract_extension(filename: &str, is_directory: bool) -> (r: Option<String>)
        ensures
            match r {
                Some(e) => extension_spec(filename@, is_directory) == Some(e@),
                None => extension_spec(filename@, is_directory) is None,
            },
    {
        if is_directory {
            return None;
        }
        let v = crate::text::chars_of(filename);
        let mut j: usize = v.len();
        proof {
            assert(v@.subrange(0, v@.len() as int) =~= v@);
        }
        while j > 0 && v[j - 1] != '.'
            invariant
                j <= v@.len(),
                last_dot(v@) == last_dot(v@.subrange(0, j as int)),
            decreases j,
        {
            proof {
                assert(v@.subrange(0, j as int).drop_last() =~= v@.subrange(0, j - 1));
                assert(v@.subrange(0, j as int).last() == v@[j - 1]);
            }
            j = j - 1;
        }
        if j == 0 {
            proof {
                assert(v@.subrange(0, 0) =~= Seq::<char>::empty());
                assert(last_dot(v@) is None);
            }
            return None;
        }
        proof {
            assert(v@.subrange(0, j as int).last() == v@[j - 1]);
            assert(last_dot(v@.subrange(0, j as int)) == Some(j - 1 as int));
        }
        let d = j - 1;
        if d > 0 && d < v.len() - 1 {
            let tail = subvec(&v, d + 1, v.len());
            let low = lower_vec(&tail);
            proof {
                assert(low@ =~= lower_seq(v@.subrange(d + 1, v@.len() as int)));
            }
            Some(string_of(&low))
        } else {
            None
        }
    }

    /// Formats a byte count the way file sizes are shown.
    pub fn format_size(bytes: u64) -> (r: String)
        ensures
            r@ == format_size_spec(bytes as nat),
    {
        format_size(bytes)
    }
}

/// The shape a query's results take: one list per source kind.
#[derive(Debug, Clone)]
pub enum QueryResult {
    Files(Vec<FileInfo>),
    Processes(Vec<ProcessInfo>),
    Network(Vec<NetInfo>),
    Applications(Vec<ApplicationInfo>),
}

/// One process record. Numeric quantities are carried as formatted strings
/// and re-parsed unit-aware by the evaluator.
#[derive(Debug, Clone)]
pub struct ProcessInfo {
    pub pid: String,
    pub name: String,
    pub cpu_usage: String,
    pub memory_usage: String,
    pub status: String,
}

/// How a processor-load figure is printed: one decimal digit and a percent
/// sign, from a count of tenths of a percent.
pub open spec fn cpu_text(tenths: nat) -> Seq<char> {
    dec_str(tenths / 10) + seq!['.', digit_char(tenths % 10), '%']
}

impl ProcessInfo {
    /// Builds a process record. The processor load is handed over in
    /// tenths of a percent, so `55` is shown as `5.5%`.
    pub fn new(pid: u32, name: &str, cpu_tenths: u64, memory_bytes: u64, status: &str) -> (r:
        ProcessInfo)
        ensures
            r.pid@ == dec_str(pid as nat),
            r.name@ == name@,
            r.cpu_usage@ == cpu_text(cpu_tenths as nat),
            r.memory_usage@ == format_size_spec(memory_bytes as nat),
            r.status@ == status@,
    {
        let mut cpu = fmt_u64(cpu_tenths / 10);
        cpu.push('.');
        cpu.push(crate::size::digit_char_exec((cpu_tenths % 10) as u8));
        cpu.push('%');
        proof {
            assert(cpu@ =~= cpu_text(cpu_tenths as nat));
        }
        ProcessInfo {
            pid: string_of(&fmt_u64(pid as u64)),
            name: name.to_owned(),
            cpu_usage: string_of(&cpu),
            memory_usage: Self::format_memory(memory_bytes),
            status: status.to_owned(),
        }
    }

    /// Formats a byte count the way memory figures are shown.
    pub fn format_memory(bytes: u64) -> (r: String)
        ensures
            r@ == format_size_spec(bytes as nat),
    {
        format_size(bytes)
    }
}

/// One open-socket record.
#[derive(Debug, Clone)]
pub struct NetInfo {
    pub name: String,
    pub port: String,
    pub pid: String,
}

impl NetInfo {
    /// Builds a socket record; port and process id are kept as decimal
    /// strings.
    pub fn new(name: &str, port: u16, pid: u32) -> (r: NetInfo)
        ensures
            r.name@ == name@,
            r.port@ == dec_str(port as nat),
            r.pid@ == dec_str(pid as nat),
    {
        NetInfo {
            name: name.to_owned(),
            port: string_of(&fmt_u64(port as u64)),
            pid: string_of(&fmt_u64(pid as u64)),
        }
    }
}

/// One installed-application record.
#[derive(Debug, Clone)]
pub struct ApplicationInfo {
    pub name: String,
    pub version: Option<String>,
    pub path: String,
    pub size: Option<String>,
    pub category: Option<String>,
}

impl ApplicationInfo {
    /// Builds an application record; a known byte count is formatted the
    /// way sizes are shown.
    pub fn new(
        name: &str,
        version: Option<String>,
        path: &str,
        size: Option<u64>,
        category: Option<String>,
    ) -> (r: ApplicationInfo)
        ensures
            r.name@ == name@,
            r.version == version,
            r.path@ == path@,
            match (r.size, size) {
                (Some(t), Some(b)) => t@ == format_size_spec(b as nat),
                (None, None) => true,
                _ => false,
            },
            r.category == category,
    {
        let formatted: Option<String> = match size {
            Some(b) => Some(Self::format_size(b)),
            None => None,
        };
        ApplicationInfo {
            name: name.to_owned(),
            version,
            path: path.to_owned(),
            size: formatted,
            category,
        }
    }

    /// Formats a byte count the way application sizes are shown.
    pub fn format_size(bytes: u64) -> (r: String)
        ensures
            r@ == format_size_spec(bytes as nat),
    {
        format_size(bytes)
    }
}

/// The command-line surface of the tool: the query text or a template to
/// save or run. The front end fills this in.
#[derive(Debug, Clone, Default)]
pub struct Args {
    /// Query string.
    pub query: Option<String>,
    /// Save the query as a template for later use.
    pub save: Option<String>,
    /// Execute a saved query template.
    pub template: Option<String>,
    /// Arguments to inject into the template.
    pub template_args: Vec<String>,
    /// Launch the graphical interface.
    pub gui: bool,
}

/// Whether a query reads or deletes.
#[derive(Debug, PartialEq, Eq, Structural)]
pub enum QueryType {
    Select,
    Delete,
}

/// Sort direction of an ORDER BY clause.
#[derive(Debug, PartialEq, Eq, Structural, Clone)]
pub enum SortDirection {
    Ascending,
    Descending,
}

/// The kind of a nested subquery.
#[derive(Debug, PartialEq, Eq, Structural)]
pub enum SubqueryType {
    /// Returns a single value, for SELECT subqueries.
    Scalar,
    /// For EXISTS conditions.
    Exists,
    /// For IN conditions.
    In,
}

/// A nested query together with the way its result is spliced in.
#[derive(Debug)]
pub struct Subquery {
    pub query: Box<SqlQuery>,
    pub subquery_type: SubqueryType,
}

/// A parsed query: what to read or delete, from where, under which
/// conditions, and how to order and truncate the result.
#[derive(Debug)]
pub struct SqlQuery {
    pub query_type: QueryType,
    pub distinct: bool,
    pub select_fields: Vec<String>,
    /// Aliases for the SELECT fields.
    pub select_field_aliases: Vec<Option<String>>,
    /// Scalar subqueries in SELECT.
    pub select_subqueries: Vec<Subquery>,
    pub from_path: String,
    pub where_clause: Option<String>,
    /// Subqueries in WHERE conditions.
    pub where_subqueries: Vec<Subquery>,
    pub order_by: Option<String>,
    pub order_direction: SortDirection,
    pub limit: Option<usize>,
}

/// One predicate of a WHERE clause: field, operator, comparison value, and
/// whether the test is inverted. The operator `IS` only ever pairs with the
/// value `NULL`; `IS NOT NULL` is `IS NULL` with `negated` set.
#[derive(Debug, Clone)]
pub struct Condition {
    pub field: String,
    pub operator: String,
    pub value: String,
    pub negated: bool,
}

} // verus!
