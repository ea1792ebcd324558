//! The predicate evaluator: one condition against one record, for every
//! record shape.
//!
//! Text fields compare lexicographically, LIKE delegates to the pattern
//! matcher, numeric-with-unit fields are parsed and compared exactly, and
//! percentage fields get a tolerance of one tenth. `IS` with the value
//! `NULL` is true exactly of an empty or absent field value. A field
//! absent on a record, an unknown field name or an unknown operator makes
//! any other condition false, never an error.

use vstd::prelude::*;
use crate::models::{ApplicationInfo, Condition, FileInfo, NetInfo, ProcessInfo};
use crate::pattern::like_matches;
use crate::size::{
    SizeValue, DecValue, size_of_text, size_lt_spec, size_eq_spec, raw_mant, dec_of_text,
    dec_lt_spec, dec_near_spec, parse_size, parse_decimal_chars, size_lt, size_eq, dec_lt,
    dec_near, digits_of, dec_wf, size_wf,
};
use crate::text::{
    lex_lt, all_digits, dec_val, chars_of, chars_eq, chars_lt, str_eq, subvec, parse_u64,
};

verus! {

/// What an ordinary comparison operator says of two texts, in lexicographic
/// order; an unknown operator is false.
pub open spec fn compare_strings_spec(l: Seq<char>, op: Seq<char>, r: Seq<char>) -> bool {
    if op == "="@ {
        l == r
    } else if op == "!="@ {
        l != r
    } else if op == ">"@ {
        lex_lt(r, l)
    } else if op == "<"@ {
        lex_lt(l, r)
    } else if op == ">="@ {
        !lex_lt(l, r)
    } else if op == "<="@ {
        !lex_lt(r, l)
    } else {
        false
    }
}

/// Compares two strings under an operator, in lexicographic order.
pub fn compare_strings(left: &str, operator: &str, right: &str) -> (r: bool)
    ensures
        r == compare_strings_spec(left@, operator@, right@),
{
    let l = chars_of(left);
    let rv = chars_of(right);
    if str_eq(operator, "=") {
        chars_eq(&l, &rv)
    } else if str_eq(operator, "!=") {
        !chars_eq(&l, &rv)
    } else if str_eq(operator, ">") {
        chars_lt(&rv, &l)
    } else if str_eq(operator, "<") {
        chars_lt(&l, &rv)
    } else if str_eq(operator, ">=") {
        !chars_lt(&l, &rv)
    } else if str_eq(operator, "<=") {
        !chars_lt(&rv, &l)
    } else {
        false
    }
}

/// A text field under a condition: LIKE goes to the pattern matcher,
/// anything else to the string comparison.
pub open spec fn like_or_cmp(text: Seq<char>, op: Seq<char>, value: Seq<char>) -> bool {
    if op == "LIKE"@ {
        like_matches(text, value)
    } else {
        compare_strings_spec(text, op, value)
    }
}

fn like_or_cmp_exec(text: &str, op: &str, value: &str) -> (r: bool)
    ensures
        r == like_or_cmp(text@, op@, value@),
{
    if str_eq(op, "LIKE") {
        crate::pattern::like_match(text, value)
    } else {
        compare_strings(text, op, value)
    }
}

// ---------------------------------------------------------------------------
// Numeric helpers
// ---------------------------------------------------------------------------

/// The size written in `s` parses and fits the exact representation.
pub open spec fn size_ok(s: Seq<char>) -> bool {
    match size_of_text(s) {
        Some(t) => raw_mant(s) <= u64::MAX && t.1 <= 6,
        None => false,
    }
}

/// The size value written in `s` (meaningful when `size_ok(s)`).
pub open spec fn size_val_of(s: Seq<char>) -> SizeValue {
    match size_of_text(s) {
        Some(t) => SizeValue { mant: t.0 as u64, frac: t.1 as u8, unit: t.2 as u8 },
        None => SizeValue { mant: 0, frac: 0, unit: 0 },
    }
}

/// An exact size comparison under an operator; equality is exact.
pub open spec fn size_op_spec(a: SizeValue, op: Seq<char>, b: SizeValue) -> bool {
    if op == "="@ {
        size_eq_spec(a, b)
    } else if op == "!="@ {
        !size_eq_spec(a, b)
    } else if op == ">"@ {
        size_lt_spec(b, a)
    } else if op == "<"@ {
        size_lt_spec(a, b)
    } else if op == ">="@ {
        !size_lt_spec(a, b)
    } else if op == "<="@ {
        !size_lt_spec(b, a)
    } else {
        false
    }
}

fn size_op_exec(a: &SizeValue, op: &str, b: &SizeValue) -> (r: bool)
    requires
        size_wf(*a),
        size_wf(*b),
    ensures
        r == size_op_spec(*a, op@, *b),
{
    if str_eq(op, "=") {
        size_eq(a, b)
    } else if str_eq(op, "!=") {
        !size_eq(a, b)
    } else if str_eq(op, ">") {
        size_lt(b, a)
    } else if str_eq(op, "<") {
        size_lt(a, b)
    } else if str_eq(op, ">=") {
        !size_lt(a, b)
    } else if str_eq(op, "<=") {
        !size_lt(b, a)
    } else {
        false
    }
}

/// How a size field evaluates: both sides must parse, then the operator
/// decides; otherwise false.
pub open spec fn size_field_spec(ls: Seq<char>, op: Seq<char>, rs: Seq<char>) -> bool {
    if size_ok(ls) && size_ok(rs) {
        size_op_spec(size_val_of(ls), op, size_val_of(rs))
    } else {
        false
    }
}

fn size_field_exec(ls: &str, op: &str, rs: &str) -> (r: bool)
    ensures
        r == size_field_spec(ls@, op@, rs@),
{
    match (parse_size(ls), parse_size(rs)) {
        (Ok(a), Ok(b)) => size_op_exec(&a, op, &b),
        _ => false,
    }
}

/// The decimal written in `s` parses and fits the exact representation.
pub open spec fn dec_ok(s: Seq<char>) -> bool {
    match dec_of_text(s) {
        Some(t) => dec_val(digits_of(s)) <= u64::MAX && t.1 <= 6,
        None => false,
    }
}

/// The decimal value written in `s` (meaningful when `dec_ok(s)`).
pub open spec fn dec_val_of(s: Seq<char>) -> DecValue {
    match dec_of_text(s) {
        Some(t) => DecValue { mant: t.0 as u64, frac: t.1 as u8 },
        None => DecValue { mant: 0, frac: 0 },
    }
}

/// A percentage comparison: equality and inequality carry a tolerance of
/// one tenth, the orderings are exact.
pub open spec fn dec_op_spec(a: DecValue, op: Seq<char>, b: DecValue) -> bool {
    if op == "="@ {
        dec_near_spec(a, b)
    } else if op == "!="@ {
        !dec_near_spec(a, b)
    } else if op == ">"@ {
        dec_lt_spec(b, a)
    } else if op == "<"@ {
        dec_lt_spec(a, b)
    } else if op == ">="@ {
        !dec_lt_spec(a, b)
    } else if op == "<="@ {
        !dec_lt_spec(b, a)
    } else {
        false
    }
}

fn dec_op_exec(a: &DecValue, op: &str, b: &DecValue) -> (r: bool)
    requires
        dec_wf(*a),
        dec_wf(*b),
    ensures
        r == dec_op_spec(*a, op@, *b),
{
    if str_eq(op, "=") {
        dec_near(a, b)
    } else if str_eq(op, "!=") {
        !dec_near(a, b)
    } else if str_eq(op, ">") {
        dec_lt(b, a)
    } else if str_eq(op, "<") {
        dec_lt(a, b)
    } else if str_eq(op, ">=") {
        !dec_lt(a, b)
    } else if str_eq(op, "<=") {
        !dec_lt(b, a)
    } else {
        false
    }
}

/// How a processor-load field evaluates: the record's figure must end in a
/// percent sign, both sides must parse as decimals, and the operator
/// decides; otherwise false.
pub open spec fn cpu_field_spec(s: Seq<char>, op: Seq<char>, v: Seq<char>) -> bool {
    if s.len() > 0 && s.last() == '%' {
        let body = s.drop_last();
        if dec_ok(body) && dec_ok(v) {
            dec_op_spec(dec_val_of(body), op, dec_val_of(v))
        } else {
            false
        }
    } else {
        false
    }
}

fn cpu_field_exec(s: &str, op: &str, v: &str) -> (r: bool)
    ensures
        r == cpu_field_spec(s@, op@, v@),
{
    let sc = chars_of(s);
    if sc.len() == 0 || sc[sc.len() - 1] != '%' {
        return false;
    }
    let body = subvec(&sc, 0, sc.len() - 1);
    proof {
        assert(body@ =~= s@.drop_last());
    }
    let vc = chars_of(v);
    match (parse_decimal_chars(&body), parse_decimal_chars(&vc)) {
        (Some(a), Some(b)) => dec_op_exec(&a, op, &b),
        _ => false,
    }
}

/// A decimal text parses as a number no greater than `max`.
pub open spec fn uint_ok(s: Seq<char>, max: nat) -> bool {
    s.len() > 0 && all_digits(s) && dec_val(s) <= max
}

/// An integer comparison under an operator; an unknown operator is false.
pub open spec fn uint_op_spec(a: nat, op: Seq<char>, b: nat) -> bool {
    if op == "="@ {
        a == b
    } else if op == "!="@ {
        a != b
    } else if op == ">"@ {
        a > b
    } else if op == "<"@ {
        a < b
    } else if op == ">="@ {
        a >= b
    } else if op == "<="@ {
        a <= b
    } else {
        false
    }
}

fn uint_op_exec(a: u64, op: &str, b: u64) -> (r: bool)
    ensures
        r == uint_op_spec(a as nat, op@, b as nat),
{
    if str_eq(op, "=") {
        a == b
    } else if str_eq(op, "!=") {
        a != b
    } else if str_eq(op, ">") {
        a > b
    } else if str_eq(op, "<") {
        a < b
    } else if str_eq(op, ">=") {
        a >= b
    } else if str_eq(op, "<=") {
        a <= b
    } else {
        false
    }
}

/// How a numeric field held as text evaluates: both sides must parse as
/// integers no greater than `max`, then the operator decides.
pub open spec fn uint_field_spec(ls: Seq<char>, op: Seq<char>, rs: Seq<char>, max: nat) -> bool {
    if uint_ok(ls, max) && uint_ok(rs, max) {
        uint_op_spec(dec_val(ls), op, dec_val(rs))
    } else {
        false
    }
}

fn uint_field_exec(ls: &str, op: &str, rs: &str, max: u64) -> (r: bool)
    ensures
        r == uint_field_spec(ls@, op@, rs@, max as nat),
{
    let lc = chars_of(ls);
    let rc = chars_of(rs);
    match (parse_u64(&lc), parse_u64(&rc)) {
        (Some(a), Some(b)) => {
            if a <= max && b <= max {
                uint_op_exec(a, op, b)
            } else {
                false
            }
        },
        _ => false,
    }
}

// ---------------------------------------------------------------------------
// File records
// ---------------------------------------------------------------------------

/// The field views of a file record: what the evaluator reads of it, at
/// specification level.
pub struct FileRecV {
    pub name: Seq<char>,
    pub file_type: Seq<char>,
    pub modified: int,
    pub permissions: Seq<char>,
    pub size: Seq<char>,
    pub path: Seq<char>,
    pub depth: nat,
    pub extension: Option<Seq<char>>,
}

/// The view of a file record.
pub open spec fn file_view(f: FileInfo) -> FileRecV {
    FileRecV {
        name: f.name@,
        file_type: f.file_type@,
        modified: f.modified_date as int,
        permissions: f.permissions@,
        size: f.size@,
        path: f.path@,
        depth: f.depth as nat,
        extension: match f.extension {
            Option::Some(e) => Some(e@),
            Option::None => None,
        },
    }
}

/// The extension text a condition sees, over views.
pub open spec fn ext_text_v(e: Option<Seq<char>>) -> Seq<char> {
    match e {
        Some(s) => s,
        None => "NULL"@,
    }
}

/// One condition against the views of a file record, before negation.
/// `IS NULL` is true exactly of an empty or absent field value.
pub open spec fn eval_file_cond_v(f: FileRecV, c: Condition) -> bool {
    if c.operator@ == "IS"@ && c.value@ == "NULL"@ {
        if c.field@ == "name"@ {
            f.name.len() == 0
        } else if c.field@ == "type"@ {
            f.file_type.len() == 0
        } else if c.field@ == "permissions"@ {
            f.permissions.len() == 0
        } else if c.field@ == "path"@ {
            f.path.len() == 0
        } else if c.field@ == "size"@ {
            f.size.len() == 0
        } else if c.field@ == "depth"@ {
            false
        } else if c.field@ == "extension"@ {
            match f.extension {
                Some(e) => e.len() == 0,
                None => true,
            }
        } else {
            false
        }
    } else if c.field@ == "name"@ {
        like_or_cmp(f.name, c.operator@, c.value@)
    } else if c.field@ == "type"@ {
        compare_strings_spec(f.file_type, c.operator@, c.value@)
    } else if c.field@ == "permissions"@ {
        compare_strings_spec(f.permissions, c.operator@, c.value@)
    } else if c.field@ == "path"@ {
        like_or_cmp(f.path, c.operator@, c.value@)
    } else if c.field@ == "size"@ {
        size_field_spec(f.size, c.operator@, c.value@)
    } else if c.field@ == "depth"@ {
        if uint_ok(c.value@, usize::MAX as nat) && f.depth <= usize::MAX {
            uint_op_spec(f.depth, c.operator@, dec_val(c.value@))
        } else {
            false
        }
    } else if c.field@ == "extension"@ {
        like_or_cmp(ext_text_v(f.extension), c.operator@, c.value@)
    } else {
        false
    }
}

/// One condition over views, with its negation flag applied.
pub open spec fn cond_holds_v(f: FileRecV, c: Condition) -> bool {
    if c.negated {
        !eval_file_cond_v(f, c)
    } else {
        eval_file_cond_v(f, c)
    }
}

/// All conditions hold of the record views.
pub open spec fn conds_hold_v(f: FileRecV, cs: Seq<Condition>) -> bool {
    forall|i: int| 0 <= i < cs.len() ==> cond_holds_v(f, #[trigger] cs[i])
}

/// One condition against one file record, before negation.
pub open spec fn eval_file_cond(f: FileInfo, c: Condition) -> bool {
    eval_file_cond_v(file_view(f), c)
}

/// Evaluates one condition against a file record (negation is applied by
/// `evaluate_conditions`).
pub fn evaluate_single_condition(file: &FileInfo, condition: &Condition) -> (r: bool)
    ensures
        r == eval_file_cond(*file, *condition),
{
    let f = condition.field.as_str();
    if str_eq(condition.operator.as_str(), "IS") && str_eq(condition.value.as_str(), "NULL") {
        return if str_eq(f, "name") {
            file.name.as_str().unicode_len() == 0
        } else if str_eq(f, "type") {
            file.file_type.as_str().unicode_len() == 0
        } else if str_eq(f, "permissions") {
            file.permissions.as_str().unicode_len() == 0
        } else if str_eq(f, "path") {
            file.path.as_str().unicode_len() == 0
        } else if str_eq(f, "size") {
            file.size.as_str().unicode_len() == 0
        } else if str_eq(f, "depth") {
            false
        } else if str_eq(f, "extension") {
            match &file.extension {
                Option::Some(e) => e.as_str().unicode_len() == 0,
                Option::None => true,
            }
        } else {
            false
        };
    }
    if str_eq(f, "name") {
        like_or_cmp_exec(file.name.as_str(), condition.operator.as_str(), condition.value.as_str())
    } else if str_eq(f, "type") {
        compare_strings(
            file.file_type.as_str(),
            condition.operator.as_str(),
            condition.value.as_str(),
        )
    } else if str_eq(f, "permissions") {
        compare_strings(
            file.permissions.as_str(),
            condition.operator.as_str(),
            condition.value.as_str(),
        )
    } else if str_eq(f, "path") {
        like_or_cmp_exec(file.path.as_str(), condition.operator.as_str(), condition.value.as_str())
    } else if str_eq(f, "size") {
        size_field_exec(file.size.as_str(), condition.operator.as_str(), condition.value.as_str())
    } else if str_eq(f, "depth") {
        let vc = chars_of(condition.value.as_str());
        match crate::text::parse_usize(&vc) {
            Some(n) => uint_op_exec(file.depth as u64, condition.operator.as_str(), n as u64),
            None => false,
        }
    } else if str_eq(f, "extension") {
        let ext: &str = match &file.extension {
            Some(e) => e.as_str(),
            None => "NULL",
        };
        like_or_cmp_exec(ext, condition.operator.as_str(), condition.value.as_str())
    } else {
        false
    }
}

/// One condition, with its negation flag applied.
pub open spec fn file_cond_holds(f: FileInfo, c: Condition) -> bool {
    if c.negated {
        !eval_file_cond(f, c)
    } else {
        eval_file_cond(f, c)
    }
}

/// All conditions hold of the record (AND), each one inverted when its
/// `negated` flag is set.
pub open spec fn file_conds_hold(f: FileInfo, cs: Seq<Condition>) -> bool {
    forall|i: int| 0 <= i < cs.len() ==> file_cond_holds(f, #[trigger] cs[i])
}

/// Evaluates the whole condition list against a file record.
pub fn evaluate_conditions(file: &FileInfo, conditions: &Vec<Condition>) -> (r: bool)
    ensures
        r == file_conds_hold(*file, conditions@),
{
    let mut i: usize = 0;
    while i < conditions.len()
        invariant
            i <= conditions@.len(),
            forall|j: int| 0 <= j < i ==> file_cond_holds(*file, #[trigger] conditions@[j]),
        decreases conditions@.len() - i,
    {
        let result = evaluate_single_condition(file, &conditions[i]);
        let final_result = if conditions[i].negated {
            !result
        } else {
            result
        };
        if !final_result {
            return false;
        }
        i = i + 1;
    }
    true
}

// ---------------------------------------------------------------------------
// Process records
// ---------------------------------------------------------------------------

/// One condition against one process record, before negation.
pub open spec fn eval_proc_cond(p: ProcessInfo, c: Condition) -> bool {
    if c.field@ == "pid"@ {
        like_or_cmp(p.pid@, c.operator@, c.value@)
    } else if c.field@ == "name"@ {
        like_or_cmp(p.name@, c.operator@, c.value@)
    } else if c.field@ == "cpu_usage"@ {
        cpu_field_spec(p.cpu_usage@, c.operator@, c.value@)
    } else if c.field@ == "memory_usage"@ {
        size_field_spec(p.memory_usage@, c.operator@, c.value@)
    } else if c.field@ == "status"@ {
        compare_strings_spec(p.status@, c.operator@, c.value@)
    } else {
        false
    }
}

/// Evaluates one condition against a process record.
pub fn evaluate_single_process_condition(process: &ProcessInfo, condition: &Condition) -> (r: bool)
    ensures
        r == eval_proc_cond(*process, *condition),
{
    let f = condition.field.as_str();
    if str_eq(f, "pid") {
        like_or_cmp_exec(
            process.pid.as_str(),
            condition.operator.as_str(),
            condition.value.as_str(),
        )
    } else if str_eq(f, "name") {
        like_or_cmp_exec(
            process.name.as_str(),
            condition.operator.as_str(),
            condition.value.as_str(),
        )
    } else if str_eq(f, "cpu_usage") {
        cpu_field_exec(
            process.cpu_usage.as_str(),
            condition.operator.as_str(),
            condition.value.as_str(),
        )
    } else if str_eq(f, "memory_usage") {
        size_field_exec(
            process.memory_usage.as_str(),
            condition.operator.as_str(),
            condition.value.as_str(),
        )
    } else if str_eq(f, "status") {
        compare_strings(
            process.status.as_str(),
            condition.operator.as_str(),
            condition.value.as_str(),
        )
    } else {
        false
    }
}

/// One process condition, with its negation flag applied.
pub open spec fn proc_cond_holds(p: ProcessInfo, c: Condition) -> bool {
    if c.negated {
        !eval_proc_cond(p, c)
    } else {
        eval_proc_cond(p, c)
    }
}

/// All conditions hold of the process record.
pub open spec fn proc_conds_hold(p: ProcessInfo, cs: Seq<Condition>) -> bool {
    forall|i: int| 0 <= i < cs.len() ==> proc_cond_holds(p, #[trigger] cs[i])
}

/// Evaluates the whole condition list against a process record.
pub fn evaluate_process_conditions(process: &ProcessInfo, conditions: &Vec<Condition>) -> (r:
    bool)
    ensures
        r == proc_conds_hold(*process, conditions@),
{
    let mut i: usize = 0;
    while i < conditions.len()
        invariant
            i <= conditions@.len(),
            forall|j: int| 0 <= j < i ==> proc_cond_holds(*process, #[trigger] conditions@[j]),
        decreases conditions@.len() - i,
    {
        let result = evaluate_single_process_condition(process, &conditions[i]);
        let final_result = if conditions[i].negated {
            !result
        } else {
            result
        };
        if !final_result {
            return false;
        }
        i = i + 1;
    }
    true
}

// ---------------------------------------------------------------------------
// Socket records
// ---------------------------------------------------------------------------

/// One condition against one socket record, before negation. `IS NULL` is
/// true exactly of an empty field.
pub open spec fn eval_net_cond(n: NetInfo, c: Condition) -> bool {
    if c.operator@ == "IS"@ && c.value@ == "NULL"@ {
        if c.field@ == "name"@ {
            n.name@.len() == 0
        } else if c.field@ == "port"@ {
            n.port@.len() == 0
        } else if c.field@ == "pid"@ {
            n.pid@.len() == 0
        } else {
            false
        }
    } else if c.field@ == "name"@ {
        like_or_cmp(n.name@, c.operator@, c.value@)
    } else if c.field@ == "port"@ {
        if c.operator@ == "LIKE"@ {
            like_matches(n.port@, c.value@)
        } else {
            uint_field_spec(n.port@, c.operator@, c.value@, u16::MAX as nat)
        }
    } else if c.field@ == "pid"@ {
        if c.operator@ == "LIKE"@ {
            like_matches(n.pid@, c.value@)
        } else {
            uint_field_spec(n.pid@, c.operator@, c.value@, u32::MAX as nat)
        }
    } else {
        false
    }
}

/// Evaluates one condition against a socket record.
pub fn evaluate_single_network_condition(net_info: &NetInfo, condition: &Condition) -> (r: bool)
    ensures
        r == eval_net_cond(*net_info, *condition),
{
    let f = condition.field.as_str();
    let op = condition.operator.as_str();
    if str_eq(op, "IS") && str_eq(condition.value.as_str(), "NULL") {
        if str_eq(f, "name") {
            return net_info.name.as_str().unicode_len() == 0;
        } else if str_eq(f, "port") {
            return net_info.port.as_str().unicode_len() == 0;
        } else if str_eq(f, "pid") {
            return net_info.pid.as_str().unicode_len() == 0;
        } else {
            return false;
        }
    }
    if str_eq(f, "name") {
        like_or_cmp_exec(net_info.name.as_str(), op, condition.value.as_str())
    } else if str_eq(f, "port") {
        if str_eq(op, "LIKE") {
            crate::pattern::like_match(net_info.port.as_str(), condition.value.as_str())
        } else {
            uint_field_exec(net_info.port.as_str(), op, condition.value.as_str(), u16::MAX as u64)
        }
    } else if str_eq(f, "pid") {
        if str_eq(op, "LIKE") {
            crate::pattern::like_match(net_info.pid.as_str(), condition.value.as_str())
        } else {
            uint_field_exec(net_info.pid.as_str(), op, condition.value.as_str(), u32::MAX as u64)
        }
    } else {
        false
    }
}

/// One socket condition, with its negation flag applied.
pub open spec fn net_cond_holds(n: NetInfo, c: Condition) -> bool {
    if c.negated {
        !eval_net_cond(n, c)
    } else {
        eval_net_cond(n, c)
    }
}

/// All conditions hold of the socket record.
pub open spec fn net_conds_hold(n: NetInfo, cs: Seq<Condition>) -> bool {
    forall|i: int| 0 <= i < cs.len() ==> net_cond_holds(n, #[trigger] cs[i])
}

/// Evaluates the whole condition list against a socket record.
pub fn evaluate_network_conditions(net_info: &NetInfo, conditions: &Vec<Condition>) -> (r: bool)
    ensures
        r == net_conds_hold(*net_info, conditions@),
{
    let mut i: usize = 0;
    while i < conditions.len()
        invariant
            i <= conditions@.len(),
            forall|j: int| 0 <= j < i ==> net_cond_holds(*net_info, #[trigger] conditions@[j]),
        decreases conditions@.len() - i,
    {
        let result = evaluate_single_network_condition(net_info, &conditions[i]);
        let final_result = if conditions[i].negated {
            !result
        } else {
            result
        };
        if !final_result {
            return false;
        }
        i = i + 1;
    }
    true
}

// ---------------------------------------------------------------------------
// Application records
// ---------------------------------------------------------------------------

/// One condition against one application record, before negation. A field
/// the record does not carry makes the condition false.
pub open spec fn eval_app_cond(a: ApplicationInfo, c: Condition) -> bool {
    if c.field@ == "name"@ {
        like_or_cmp(a.name@, c.operator@, c.value@)
    } else if c.field@ == "version"@ {
        match a.version {
            Some(v) => like_or_cmp(v@, c.operator@, c.value@),
            None => false,
        }
    } else if c.field@ == "path"@ {
        like_or_cmp(a.path@, c.operator@, c.value@)
    } else if c.field@ == "category"@ {
        match a.category {
            Some(v) => like_or_cmp(v@, c.operator@, c.value@),
            None => false,
        }
    } else if c.field@ == "size"@ {
        match a.size {
            Some(v) => like_or_cmp(v@, c.operator@, c.value@),
            None => false,
        }
    } else {
        false
    }
}

/// Evaluates one condition against an application record.
pub fn evaluate_single_application_condition(app: &ApplicationInfo, condition: &Condition) -> (r:
    bool)
    ensures
        r == eval_app_cond(*app, *condition),
{
    let f = condition.field.as_str();
    let op = condition.operator.as_str();
    let val = condition.value.as_str();
    if str_eq(f, "name") {
        like_or_cmp_exec(app.name.as_str(), op, val)
    } else if str_eq(f, "version") {
        match &app.version {
            Some(v) => like_or_cmp_exec(v.as_str(), op, val),
            None => false,
        }
    } else if str_eq(f, "path") {
        like_or_cmp_exec(app.path.as_str(), op, val)
    } else if str_eq(f, "category") {
        match &app.category {
            Some(v) => like_or_cmp_exec(v.as_str(), op, val),
            None => false,
        }
    } else if str_eq(f, "size") {
        match &app.size {
            Some(v) => like_or_cmp_exec(v.as_str(), op, val),
            None => false,
        }
    } else {
        false
    }
}

/// One application condition, with its negation flag applied.
pub open spec fn app_cond_holds(a: ApplicationInfo, c: Condition) -> bool {
    if c.negated {
        !eval_app_cond(a, c)
    } else {
        eval_app_cond(a, c)
    }
}

/// All conditions hold of the application record.
pub open spec fn app_conds_hold(a: ApplicationInfo, cs: Seq<Condition>) -> bool {
    forall|i: int| 0 <= i < cs.len() ==> app_cond_holds(a, #[trigger] cs[i])
}

/// Evaluates the whole condition list against an application record.
pub fn evaluate_application_conditions(app: &ApplicationInfo, conditions: &Vec<Condition>) -> (r:
    bool)
    ensures
        r == app_conds_hold(*app, conditions@),
{
    let mut i: usize = 0;
    while i < conditions.len()
        invariant
            i <= conditions@.len(),
            forall|j: int| 0 <= j < i ==> app_cond_holds(*app, #[trigger] conditions@[j]),
        decreases conditions@.len() - i,
    {
        let result = evaluate_single_application_condition(app, &conditions[i]);
        let final_result = if conditions[i].negated {
            !result
        } else {
            result
        };
        if !final_result {
            return false;
        }
        i = i + 1;
    }
    true
}

} // verus!
