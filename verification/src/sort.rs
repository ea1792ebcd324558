//! ORDER BY: a stable, single-threaded sort of a completed result list.
//!
//! Each record shape orders by the named field — text fields
//! lexicographically, numeric fields by their parsed value with records
//! that fail to parse counted as zero, and an unknown field leaves the
//! order exactly as it was. The sort is stable: records with equal keys
//! keep their relative order, and a descending direction sorts by the
//! flipped comparison rather than reversing the list, so ties stay put
//! there too.

use vstd::prelude::*;
use crate::models::{ApplicationInfo, FileInfo, NetInfo, ProcessInfo, SortDirection};
use crate::size::{size_of_text, pow1024, pow10, parse_size, dec_of_text, parse_decimal_chars};
use crate::evaluate::{size_ok, dec_ok};
use crate::text::{
    lex_lt, dec_val, chars_of, chars_eq, chars_lt, subvec, trim, lower_vec, trim_seq, lower_seq,
    parse_u64, all_digits, str_eq,
};

verus! {

/// `a` comes no later than `b` in lexicographic order.
pub open spec fn lex_le(a: Seq<char>, b: Seq<char>) -> bool {
    !lex_lt(b, a)
}

proof fn lemma_lex_lt_trans(a: Seq<char>, b: Seq<char>, c: Seq<char>)
    requires
        lex_lt(a, b),
        lex_lt(b, c),
    ensures
        lex_lt(a, c),
    decreases a.len(),
{
    if a.len() > 0 && b.len() > 0 && c.len() > 0 {
        if a[0] == b[0] && b[0] == c[0] {
            lemma_lex_lt_trans(a.skip(1), b.skip(1), c.skip(1));
        }
    }
}

proof fn lemma_lex_connex(a: Seq<char>, b: Seq<char>)
    ensures
        lex_lt(a, b) || lex_lt(b, a) || a == b,
    decreases a.len(),
{
    if a.len() == 0 && b.len() == 0 {
        assert(a =~= b);
    } else if a.len() > 0 && b.len() > 0 && a[0] == b[0] {
        lemma_lex_connex(a.skip(1), b.skip(1));
        if a.skip(1) == b.skip(1) {
            assert(a =~= b) by {
                assert(a.skip(1).len() == a.len() - 1);
                assert(b.skip(1).len() == b.len() - 1);
                assert(forall|i: int|
                    1 <= i < a.len() ==> a[i] == a.skip(1)[i - 1] && b[i] == b.skip(1)[i - 1]);
            };
        }
    }
}

proof fn lemma_lex_le_total(a: Seq<char>, b: Seq<char>)
    ensures
        lex_le(a, b) || lex_le(b, a),
{
    lemma_lex_connex(a, b);
    if lex_lt(b, a) && lex_lt(a, b) {
        lemma_lex_lt_trans(a, b, a);
        lemma_lex_lt_irrefl(a);
    }
}

proof fn lemma_lex_lt_irrefl(a: Seq<char>)
    ensures
        !lex_lt(a, a),
    decreases a.len(),
{
    if a.len() > 0 {
        lemma_lex_lt_irrefl(a.skip(1));
    }
}

proof fn lemma_lex_le_trans(a: Seq<char>, b: Seq<char>, c: Seq<char>)
    requires
        lex_le(a, b),
        lex_le(b, c),
    ensures
        lex_le(a, c),
{
    if lex_lt(c, a) {
        lemma_lex_connex(a, b);
        lemma_lex_connex(b, c);
        if lex_lt(a, b) {
            lemma_lex_lt_trans(c, a, b);
        } else if a == b {
        } else {
        }
        if lex_lt(b, c) {
            if a == b {
                lemma_lex_lt_trans(b, c, a);
                lemma_lex_lt_irrefl(a);
            } else {
                lemma_lex_lt_trans(a, b, c);
                lemma_lex_lt_trans(a, c, a);
                lemma_lex_lt_irrefl(a);
            }
        } else if b == c {
            if a == b {
                lemma_lex_lt_irrefl(a);
            }
        }
    }
}

// ---------------------------------------------------------------------------
// Numeric sort keys
// ---------------------------------------------------------------------------

/// The integer a size string sorts by: its exact byte value scaled by a
/// million, or zero when it does not parse.
pub open spec fn size_sort_key(s: Seq<char>) -> int {
    if size_ok(s) {
        match size_of_text(s) {
            Some(t) => (t.0 * pow1024(t.2) * pow10((6 - t.1) as nat)) as int,
            None => 0,
        }
    } else {
        0
    }
}

/// The integer a percentage string sorts by: its value scaled by a
/// million, or zero when the percent sign or the number is missing.
pub open spec fn cpu_sort_key(s: Seq<char>) -> int {
    if s.len() > 0 && s.last() == '%' && dec_ok(s.drop_last()) {
        match dec_of_text(s.drop_last()) {
            Some(t) => (t.0 * pow10((6 - t.1) as nat)) as int,
            None => 0,
        }
    } else {
        0
    }
}

/// The integer a decimal string sorts by, or zero when it does not parse
/// or exceeds `max`.
pub open spec fn uint_sort_key(s: Seq<char>, max: nat) -> int {
    if s.len() > 0 && all_digits(s) && dec_val(s) <= max {
        dec_val(s) as int
    } else {
        0
    }
}

fn size_sort_key_exec(s: &str) -> (r: u128)
    ensures
        r == size_sort_key(s@),
{
    match parse_size(s) {
        Ok(v) => {
            proof {
                crate::size::lemma_pow_key_bound(v.mant as nat, v.unit as nat, v.frac as nat);
            }
            (v.mant as u128) * crate::size::pow1024_exec(v.unit) * crate::size::pow10_exec(
                6 - v.frac,
            )
        },
        Err(_) => 0,
    }
}

fn cpu_sort_key_exec(s: &str) -> (r: u128)
    ensures
        r == cpu_sort_key(s@),
{
    let sc = chars_of(s);
    if sc.len() == 0 || sc[sc.len() - 1] != '%' {
        return 0;
    }
    let body = subvec(&sc, 0, sc.len() - 1);
    proof {
        assert(body@ =~= s@.drop_last());
    }
    match parse_decimal_chars(&body) {
        Some(v) => {
            proof {
                crate::size::lemma_pow_key_bound(v.mant as nat, 0, v.frac as nat);
                assert(crate::size::pow1024(0) == 1);
            }
            (v.mant as u128) * crate::size::pow10_exec(6 - v.frac)
        },
        None => 0,
    }
}

fn uint_sort_key_exec(s: &str, max: u64) -> (r: u64)
    ensures
        r == uint_sort_key(s@, max as nat),
{
    let sc = chars_of(s);
    match parse_u64(&sc) {
        Some(n) => {
            if n <= max {
                n
            } else {
                0
            }
        },
        None => 0,
    }
}

// ---------------------------------------------------------------------------
// The field ordering and the generic sort
// ---------------------------------------------------------------------------

/// A record shape that can be ordered by one of its fields. The ordering
/// must be total and transitive, which the sort's contract rests on.
pub trait FieldOrd: Sized {
    /// The record ordering for the (already normalised) field name.
    spec fn le(a: Self, b: Self, field: Seq<char>) -> bool;

    /// The ordering is total.
    proof fn lemma_le_total(a: Self, b: Self, field: Seq<char>)
        ensures
            Self::le(a, b, field) || Self::le(b, a, field),
    ;

    /// The ordering is transitive.
    proof fn lemma_le_trans(a: Self, b: Self, c: Self, field: Seq<char>)
        requires
            Self::le(a, b, field),
            Self::le(b, c, field),
        ensures
            Self::le(a, c, field),
    ;

    /// Decides the ordering.
    fn le_exec(&self, other: &Self, field: &Vec<char>) -> (r: bool)
        ensures
            r == Self::le(*self, *other, field@),
    ;
}

/// The field ordering in a direction: descending flips the comparison,
/// so that a stable sort by it reverses distinct keys while equal keys
/// keep their relative order.
pub open spec fn field_le_dir<T: FieldOrd>(desc: bool, a: T, b: T, field: Seq<char>) -> bool {
    if desc {
        T::le(b, a, field)
    } else {
        T::le(a, b, field)
    }
}

proof fn lemma_dir_total<T: FieldOrd>(desc: bool, a: T, b: T, field: Seq<char>)
    ensures
        field_le_dir(desc, a, b, field) || field_le_dir(desc, b, a, field),
{
    T::lemma_le_total(a, b, field);
    T::lemma_le_total(b, a, field);
}

proof fn lemma_dir_trans<T: FieldOrd>(desc: bool, a: T, b: T, c: T, field: Seq<char>)
    requires
        field_le_dir(desc, a, b, field),
        field_le_dir(desc, b, c, field),
    ensures
        field_le_dir(desc, a, c, field),
{
    if desc {
        T::lemma_le_trans(c, b, a, field);
    } else {
        T::lemma_le_trans(a, b, c, field);
    }
}

/// The whole sequence is ordered by the field, in the direction.
pub open spec fn sorted_dir<T: FieldOrd>(s: Seq<T>, field: Seq<char>, desc: bool) -> bool {
    forall|p: int, q: int|
        0 <= p < q < s.len() ==> field_le_dir(desc, #[trigger] s[p], #[trigger] s[q], field)
}

/// Stable insertion of `x` into an already-sorted list: `x` lands after
/// every record that compares at or below it, so records with equal keys
/// keep their relative order.
pub open spec fn stable_insert<T: FieldOrd>(s: Seq<T>, x: T, field: Seq<char>, desc: bool) -> Seq<
    T,
>
    decreases s.len(),
{
    if s.len() == 0 {
        seq![x]
    } else if field_le_dir(desc, s.last(), x, field) {
        s.push(x)
    } else {
        stable_insert(s.drop_last(), x, field, desc).push(s.last())
    }
}

/// The stable sort of a list by a field, in a direction: each record in
/// turn stably inserted into the sorted prefix. An ordering that holds
/// both ways everywhere (as an unrecognised field's does) leaves the list
/// exactly as it was.
pub open spec fn sort_spec<T: FieldOrd>(s: Seq<T>, field: Seq<char>, desc: bool) -> Seq<T>
    decreases s.len(),
{
    if s.len() == 0 {
        Seq::empty()
    } else {
        stable_insert(sort_spec(s.drop_last(), field, desc), s.last(), field, desc)
    }
}

/// Where the scan stops is where the stable insertion lands.
proof fn lemma_stable_insert_at<T: FieldOrd>(s: Seq<T>, x: T, j: int, field: Seq<char>, desc:
    bool)
    requires
        0 <= j <= s.len(),
        forall|q: int| j <= q < s.len() ==> !field_le_dir(desc, #[trigger] s[q], x, field),
        j > 0 ==> field_le_dir(desc, s[j - 1], x, field),
    ensures
        stable_insert(s, x, field, desc) == s.subrange(0, j) + seq![x] + s.subrange(
            j,
            s.len() as int,
        ),
    decreases s.len(),
{
    if s.len() == 0 {
        assert(stable_insert(s, x, field, desc) =~= s.subrange(0, j) + seq![x] + s.subrange(
            j,
            s.len() as int,
        ));
    } else if j == s.len() {
        assert(field_le_dir(desc, s.last(), x, field));
        assert(s.push(x) =~= s.subrange(0, j) + seq![x] + s.subrange(j, s.len() as int));
    } else {
        assert(!field_le_dir(desc, s.last(), x, field));
        assert(forall|q: int|
            j <= q < s.len() - 1 ==> !field_le_dir(desc, #[trigger] s.drop_last()[q], x, field));
        if j > 0 {
            assert(s.drop_last()[j - 1] == s[j - 1]);
        }
        lemma_stable_insert_at(s.drop_last(), x, j, field, desc);
        assert((s.drop_last().subrange(0, j) + seq![x] + s.drop_last().subrange(
            j,
            s.len() - 1,
        )).push(s.last()) =~= s.subrange(0, j) + seq![x] + s.subrange(j, s.len() as int));
    }
}

fn dir_le_exec<T: FieldOrd>(a: &T, b: &T, field: &Vec<char>, desc: bool) -> (r: bool)
    ensures
        r == field_le_dir(desc, *a, *b, field@),
{
    if desc {
        b.le_exec(a, field)
    } else {
        a.le_exec(b, field)
    }
}

/// Insertion sort by one field: the result is exactly the stable sort of
/// the input in the asked direction — ordered, a permutation, and with
/// equal keys in their original order.
pub fn sort_by_field<T: FieldOrd>(v: &mut Vec<T>, field: &Vec<char>, desc: bool)
    ensures
        final(v)@ == sort_spec(old(v)@, field@, desc),
        final(v)@.to_multiset() == old(v)@.to_multiset(),
        final(v)@.len() == old(v)@.len(),
        sorted_dir(final(v)@, field@, desc),
{
    broadcast use vstd::seq_lib::group_to_multiset_ensures;
    broadcast use vstd::multiset::group_multiset_axioms;

    let n = v.len();
    if n == 0 {
        proof {
            assert(v@ =~= sort_spec(old(v)@, field@, desc));
        }
        return ;
    }
    proof {
        assert(v@.subrange(0, 1) =~= sort_spec(old(v)@.subrange(0, 1), field@, desc)) by {
            let s1 = old(v)@.subrange(0, 1);
            assert(s1.len() == 1);
            assert(sort_spec(s1, field@, desc) == stable_insert(
                sort_spec(s1.drop_last(), field@, desc),
                s1.last(),
                field@,
                desc,
            ));
            assert(s1.drop_last() =~= Seq::<T>::empty());
            assert(sort_spec(Seq::<T>::empty(), field@, desc) =~= Seq::<T>::empty());
            assert(stable_insert(Seq::<T>::empty(), s1.last(), field@, desc) =~= seq![s1.last()]);
            assert(s1.last() == old(v)@[0] && v@[0] == old(v)@[0]);
        };
    }
    let mut i: usize = 1;
    while i < n
        invariant
            1 <= i <= n,
            n == v@.len(),
            n == old(v)@.len(),
            v@.to_multiset() == old(v)@.to_multiset(),
            v@.skip(i as int) =~= old(v)@.skip(i as int),
            v@.subrange(0, i as int) == sort_spec(old(v)@.subrange(0, i as int), field@, desc),
            sorted_dir(v@.subrange(0, i as int), field@, desc),
        decreases n - i,
    {
        // Find the insertion point for v[i] in the sorted prefix.
        let mut j: usize = i;
        while j > 0 && !(dir_le_exec(&v[j - 1], &v[i], field, desc))
            invariant
                0 <= j <= i < n,
                n == v@.len(),
                forall|q: int|
                    j <= q < i ==> !field_le_dir(desc, #[trigger] v@[q], v@[i as int], field@),
            decreases j,
        {
            j = j - 1;
        }
        let ghost prev = v@;
        proof {
            // The record being inserted is still the original one.
            assert(prev[i as int] == old(v)@[i as int]) by {
                assert(prev.skip(i as int)[0] == prev[i as int]);
                assert(old(v)@.skip(i as int)[0] == old(v)@[i as int]);
            };
            assert(old(v)@.subrange(0, i + 1).drop_last() =~= old(v)@.subrange(0, i as int));
            assert(old(v)@.subrange(0, i + 1).last() == old(v)@[i as int]);
            // The prefix below i is sorted, pairwise.
            assert forall|p: int, q: int| 0 <= p < q < i implies field_le_dir(
                desc,
                prev[p],
                prev[q],
                field@,
            ) by {
                assert(prev.subrange(0, i as int)[p] == prev[p]);
                assert(prev.subrange(0, i as int)[q] == prev[q]);
            }
            lemma_stable_insert_at(
                prev.subrange(0, i as int),
                prev[i as int],
                j as int,
                field@,
                desc,
            );
        }
        if j < i {
            let x = v.remove(i);
            v.insert(j, x);
            proof {
                let cur = v@;
                let x0 = prev[i as int];
                assert(cur == prev.remove(i as int).insert(j as int, x0));
                assert(cur.to_multiset() =~= prev.to_multiset()) by {
                    vstd::seq_lib::to_multiset_remove(prev, i as int);
                    vstd::seq_lib::to_multiset_insert(prev.remove(i as int), j as int, x0);
                    vstd::seq_lib::to_multiset_contains(prev, x0);
                    assert(prev.contains(x0));
                    assert(prev.to_multiset().count(x0) > 0);
                    assert(prev.to_multiset().remove(x0).insert(x0) =~= prev.to_multiset());
                };
                // Element placement after the rotation.
                assert(forall|k: int| 0 <= k < j ==> cur[k] == prev[k]);
                assert(cur[j as int] == x0);
                assert(forall|k: int| j < k <= i ==> cur[k] == prev[k - 1]);
                assert(forall|k: int| i < k < cur.len() ==> cur[k] == prev[k]);
                // The new prefix is the stable insertion.
                assert(cur.subrange(0, i + 1) =~= prev.subrange(0, i as int).subrange(0, j as int)
                    + seq![x0] + prev.subrange(0, i as int).subrange(j as int, i as int));
                assert(cur.subrange(0, i + 1) == sort_spec(
                    old(v)@.subrange(0, i + 1),
                    field@,
                    desc,
                ));
                // The untouched tail.
                assert(cur.skip(i + 1) =~= old(v)@.skip(i + 1)) by {
                    assert forall|k: int|
                        0 <= k < cur.len() - i - 1 implies #[trigger] cur.skip(i + 1)[k] == old(
                        v,
                    )@.skip(i + 1)[k] by {
                        assert(cur.skip(i + 1)[k] == cur[i + 1 + k]);
                        assert(prev.skip(i as int)[k + 1] == prev[i + 1 + k]);
                        assert(old(v)@.skip(i as int)[k + 1] == old(v)@[i + 1 + k]);
                        assert(old(v)@.skip(i + 1)[k] == old(v)@[i + 1 + k]);
                    }
                };
                // The element moved down compares at or below everything it
                // passed, and the prefix was sorted.
                assert forall|q: int| j <= q < i implies field_le_dir(
                    desc,
                    x0,
                    prev[q],
                    field@,
                ) by {
                    lemma_dir_total(desc, x0, prev[q], field@);
                }
                if j > 0 {
                    assert(field_le_dir(desc, prev[j - 1], x0, field@));
                }
                assert forall|p: int, q: int|
                    0 <= p < q < i + 1 implies field_le_dir(
                    desc,
                    #[trigger] cur[p],
                    #[trigger] cur[q],
                    field@,
                ) by {
                    if q < j {
                    } else if q == j {
                        if p < j - 1 {
                            lemma_dir_trans(desc, prev[p], prev[j - 1], x0, field@);
                        }
                    } else if p < j {
                        if q - 1 == j - 1 {
                        } else {
                            if p == j - 1 {
                                lemma_dir_trans(desc, prev[p], x0, prev[q - 1], field@);
                            } else {
                                lemma_dir_trans(desc, prev[p], prev[j - 1], x0, field@);
                                lemma_dir_trans(desc, prev[p], x0, prev[q - 1], field@);
                            }
                        }
                    } else if p == j {
                    } else {
                    }
                }
                assert(sorted_dir(cur.subrange(0, i + 1), field@, desc)) by {
                    assert(forall|k: int| 0 <= k < i + 1 ==> cur.subrange(0, i + 1)[k] == cur[k]);
                };
            }
        } else {
            proof {
                // j == i: the record already sits where the stable
                // insertion puts it.
                assert(v@.subrange(0, i + 1) =~= prev.subrange(0, i as int).subrange(0, j as int)
                    + seq![prev[i as int]] + prev.subrange(0, i as int).subrange(
                    j as int,
                    i as int,
                ));
                assert(v@.subrange(0, i + 1) == sort_spec(
                    old(v)@.subrange(0, i + 1),
                    field@,
                    desc,
                ));
                assert(v@.skip(i + 1) =~= old(v)@.skip(i + 1)) by {
                    assert forall|k: int|
                        0 <= k < v@.len() - i - 1 implies #[trigger] v@.skip(i + 1)[k] == old(
                        v,
                    )@.skip(i + 1)[k] by {
                        assert(v@.skip(i + 1)[k] == v@[i + 1 + k]);
                        assert(v@.skip(i as int)[k + 1] == v@[i + 1 + k]);
                        assert(old(v)@.skip(i as int)[k + 1] == old(v)@[i + 1 + k]);
                        assert(old(v)@.skip(i + 1)[k] == old(v)@[i + 1 + k]);
                    }
                };
                assert(field_le_dir(desc, v@[i - 1], v@[i as int], field@));
                assert forall|p: int, q: int|
                    0 <= p < q < i + 1 implies field_le_dir(
                    desc,
                    #[trigger] v@[p],
                    #[trigger] v@[q],
                    field@,
                ) by {
                    if q == i && p < i - 1 {
                        lemma_dir_trans(desc, v@[p], v@[i - 1], v@[i as int], field@);
                    }
                }
                assert(sorted_dir(v@.subrange(0, i + 1), field@, desc)) by {
                    assert(forall|k: int| 0 <= k < i + 1 ==> v@.subrange(0, i + 1)[k] == v@[k]);
                };
            }
        }
        i = i + 1;
    }
    proof {
        assert(v@.subrange(0, n as int) =~= v@);
        assert(old(v)@.subrange(0, n as int) =~= old(v)@);
    }
}

// ---------------------------------------------------------------------------
// Orderings per record shape
// ---------------------------------------------------------------------------

/// Ordering on optional text where an absent value comes first.
pub open spec fn opt_le(a: Option<String>, b: Option<String>) -> bool {
    match (a, b) {
        (Option::None, _) => true,
        (Option::Some(x), Option::None) => false,
        (Option::Some(x), Option::Some(y)) => lex_le(x@, y@),
    }
}

/// The text of an optional field, empty when absent.
pub open spec fn opt_text(o: Option<String>) -> Seq<char> {
    match o {
        Option::Some(x) => x@,
        Option::None => Seq::empty(),
    }
}

impl FieldOrd for FileInfo {
    open spec fn le(a: FileInfo, b: FileInfo, field: Seq<char>) -> bool {
        if field == "name"@ {
            lex_le(a.name@, b.name@)
        } else if field == "type"@ {
            lex_le(a.file_type@, b.file_type@)
        } else if field == "modified_date"@ {
            a.modified_date <= b.modified_date
        } else if field == "permissions"@ {
            lex_le(a.permissions@, b.permissions@)
        } else if field == "size"@ {
            size_sort_key(a.size@) <= size_sort_key(b.size@)
        } else if field == "path"@ {
            lex_le(a.path@, b.path@)
        } else if field == "extension"@ {
            opt_le(a.extension, b.extension)
        } else {
            true
        }
    }

    proof fn lemma_le_total(a: FileInfo, b: FileInfo, field: Seq<char>) {
        lemma_lex_le_total(a.name@, b.name@);
        lemma_lex_le_total(a.file_type@, b.file_type@);
        lemma_lex_le_total(a.permissions@, b.permissions@);
        lemma_lex_le_total(a.path@, b.path@);
        lemma_opt_le_total(a.extension, b.extension);
    }

    proof fn lemma_le_trans(a: FileInfo, b: FileInfo, c: FileInfo, field: Seq<char>) {
        if field == "name"@ {
            lemma_lex_le_trans(a.name@, b.name@, c.name@);
        } else if field == "type"@ {
            lemma_lex_le_trans(a.file_type@, b.file_type@, c.file_type@);
        } else if field == "modified_date"@ {
        } else if field == "permissions"@ {
            lemma_lex_le_trans(a.permissions@, b.permissions@, c.permissions@);
        } else if field == "size"@ {
        } else if field == "path"@ {
            lemma_lex_le_trans(a.path@, b.path@, c.path@);
        } else if field == "extension"@ {
            lemma_opt_le_trans(a.extension, b.extension, c.extension);
        }
    }

    fn le_exec(&self, other: &FileInfo, field: &Vec<char>) -> (r: bool) {
        if chars_eq(field, &chars_of("name")) {
            !chars_lt(&chars_of(other.name.as_str()), &chars_of(self.name.as_str()))
        } else if chars_eq(field, &chars_of("type")) {
            !chars_lt(&chars_of(other.file_type.as_str()), &chars_of(self.file_type.as_str()))
        } else if chars_eq(field, &chars_of("modified_date")) {
            self.modified_date <= other.modified_date
        } else if chars_eq(field, &chars_of("permissions")) {
            !chars_lt(&chars_of(other.permissions.as_str()), &chars_of(self.permissions.as_str()))
        } else if chars_eq(field, &chars_of("size")) {
            size_sort_key_exec(self.size.as_str()) <= size_sort_key_exec(other.size.as_str())
        } else if chars_eq(field, &chars_of("path")) {
            !chars_lt(&chars_of(other.path.as_str()), &chars_of(self.path.as_str()))
        } else if chars_eq(field, &chars_of("extension")) {
            opt_le_exec(&self.extension, &other.extension)
        } else {
            true
        }
    }
}

proof fn lemma_opt_le_total(a: Option<String>, b: Option<String>)
    ensures
        opt_le(a, b) || opt_le(b, a),
{
    match (a, b) {
        (Option::Some(x), Option::Some(y)) => {
            lemma_lex_le_total(x@, y@);
        },
        _ => {},
    }
}

proof fn lemma_opt_le_trans(a: Option<String>, b: Option<String>, c: Option<String>)
    requires
        opt_le(a, b),
        opt_le(b, c),
    ensures
        opt_le(a, c),
{
    match (a, b, c) {
        (Option::Some(x), Option::Some(y), Option::Some(z)) => {
            lemma_lex_le_trans(x@, y@, z@);
        },
        _ => {},
    }
}

fn opt_le_exec(a: &Option<String>, b: &Option<String>) -> (r: bool)
    ensures
        r == opt_le(*a, *b),
{
    match (a, b) {
        (Option::None, _) => true,
        (Option::Some(_), Option::None) => false,
        (Option::Some(x), Option::Some(y)) => !chars_lt(
            &chars_of(y.as_str()),
            &chars_of(x.as_str()),
        ),
    }
}

impl FieldOrd for ProcessInfo {
    open spec fn le(a: ProcessInfo, b: ProcessInfo, field: Seq<char>) -> bool {
        if field == "pid"@ {
            uint_sort_key(a.pid@, u32::MAX as nat) <= uint_sort_key(b.pid@, u32::MAX as nat)
        } else if field == "name"@ {
            lex_le(a.name@, b.name@)
        } else if field == "cpu_usage"@ {
            cpu_sort_key(a.cpu_usage@) <= cpu_sort_key(b.cpu_usage@)
        } else if field == "memory_usage"@ {
            size_sort_key(a.memory_usage@) <= size_sort_key(b.memory_usage@)
        } else if field == "status"@ {
            lex_le(a.status@, b.status@)
        } else {
            true
        }
    }

    proof fn lemma_le_total(a: ProcessInfo, b: ProcessInfo, field: Seq<char>) {
        lemma_lex_le_total(a.name@, b.name@);
        lemma_lex_le_total(a.status@, b.status@);
    }

    proof fn lemma_le_trans(a: ProcessInfo, b: ProcessInfo, c: ProcessInfo, field: Seq<char>) {
        if field == "pid"@ {
        } else if field == "name"@ {
            lemma_lex_le_trans(a.name@, b.name@, c.name@);
        } else if field == "cpu_usage"@ {
        } else if field == "memory_usage"@ {
        } else if field == "status"@ {
            lemma_lex_le_trans(a.status@, b.status@, c.status@);
        }
    }

    fn le_exec(&self, other: &ProcessInfo, field: &Vec<char>) -> (r: bool) {
        if chars_eq(field, &chars_of("pid")) {
            uint_sort_key_exec(self.pid.as_str(), u32::MAX as u64) <= uint_sort_key_exec(
                other.pid.as_str(),
                u32::MAX as u64,
            )
        } else if chars_eq(field, &chars_of("name")) {
            !chars_lt(&chars_of(other.name.as_str()), &chars_of(self.name.as_str()))
        } else if chars_eq(field, &chars_of("cpu_usage")) {
            cpu_sort_key_exec(self.cpu_usage.as_str()) <= cpu_sort_key_exec(
                other.cpu_usage.as_str(),
            )
        } else if chars_eq(field, &chars_of("memory_usage")) {
            size_sort_key_exec(self.memory_usage.as_str()) <= size_sort_key_exec(
                other.memory_usage.as_str(),
            )
        } else if chars_eq(field, &chars_of("status")) {
            !chars_lt(&chars_of(other.status.as_str()), &chars_of(self.status.as_str()))
        } else {
            true
        }
    }
}

impl FieldOrd for NetInfo {
    open spec fn le(a: NetInfo, b: NetInfo, field: Seq<char>) -> bool {
        if field == "name"@ {
            lex_le(a.name@, b.name@)
        } else if field == "port"@ {
            uint_sort_key(a.port@, u16::MAX as nat) <= uint_sort_key(b.port@, u16::MAX as nat)
        } else if field == "pid"@ {
            uint_sort_key(a.pid@, u32::MAX as nat) <= uint_sort_key(b.pid@, u32::MAX as nat)
        } else {
            true
        }
    }

    proof fn lemma_le_total(a: NetInfo, b: NetInfo, field: Seq<char>) {
        lemma_lex_le_total(a.name@, b.name@);
    }

    proof fn lemma_le_trans(a: NetInfo, b: NetInfo, c: NetInfo, field: Seq<char>) {
        if field == "name"@ {
            lemma_lex_le_trans(a.name@, b.name@, c.name@);
        } else if field == "port"@ {
        } else if field == "pid"@ {
        }
    }

    fn le_exec(&self, other: &NetInfo, field: &Vec<char>) -> (r: bool) {
        if chars_eq(field, &chars_of("name")) {
            !chars_lt(&chars_of(other.name.as_str()), &chars_of(self.name.as_str()))
        } else if chars_eq(field, &chars_of("port")) {
            uint_sort_key_exec(self.port.as_str(), u16::MAX as u64) <= uint_sort_key_exec(
                other.port.as_str(),
                u16::MAX as u64,
            )
        } else if chars_eq(field, &chars_of("pid")) {
            uint_sort_key_exec(self.pid.as_str(), u32::MAX as u64) <= uint_sort_key_exec(
                other.pid.as_str(),
                u32::MAX as u64,
            )
        } else {
            true
        }
    }
}

impl FieldOrd for ApplicationInfo {
    open spec fn le(a: ApplicationInfo, b: ApplicationInfo, field: Seq<char>) -> bool {
        if field == "name"@ {
            lex_le(a.name@, b.name@)
        } else if field == "version"@ {
            lex_le(opt_text(a.version), opt_text(b.version))
        } else if field == "path"@ {
            lex_le(a.path@, b.path@)
        } else if field == "category"@ {
            lex_le(opt_text(a.category), opt_text(b.category))
        } else if field == "size"@ {
            lex_le(opt_text(a.size), opt_text(b.size))
        } else {
            true
        }
    }

    proof fn lemma_le_total(a: ApplicationInfo, b: ApplicationInfo, field: Seq<char>) {
        lemma_lex_le_total(a.name@, b.name@);
        lemma_lex_le_total(opt_text(a.version), opt_text(b.version));
        lemma_lex_le_total(a.path@, b.path@);
        lemma_lex_le_total(opt_text(a.category), opt_text(b.category));
        lemma_lex_le_total(opt_text(a.size), opt_text(b.size));
    }

    proof fn lemma_le_trans(a: ApplicationInfo, b: ApplicationInfo, c: ApplicationInfo, field:
        Seq<char>) {
        if field == "name"@ {
            lemma_lex_le_trans(a.name@, b.name@, c.name@);
        } else if field == "version"@ {
            lemma_lex_le_trans(opt_text(a.version), opt_text(b.version), opt_text(c.version));
        } else if field == "path"@ {
            lemma_lex_le_trans(a.path@, b.path@, c.path@);
        } else if field == "category"@ {
            lemma_lex_le_trans(opt_text(a.category), opt_text(b.category), opt_text(c.category));
        } else if field == "size"@ {
            lemma_lex_le_trans(opt_text(a.size), opt_text(b.size), opt_text(c.size));
        }
    }

    fn le_exec(&self, other: &ApplicationInfo, field: &Vec<char>) -> (r: bool) {
        if chars_eq(field, &chars_of("name")) {
            !chars_lt(&chars_of(other.name.as_str()), &chars_of(self.name.as_str()))
        } else if chars_eq(field, &chars_of("version")) {
            !chars_lt(&opt_text_exec(&other.version), &opt_text_exec(&self.version))
        } else if chars_eq(field, &chars_of("path")) {
            !chars_lt(&chars_of(other.path.as_str()), &chars_of(self.path.as_str()))
        } else if chars_eq(field, &chars_of("category")) {
            !chars_lt(&opt_text_exec(&other.category), &opt_text_exec(&self.category))
        } else if chars_eq(field, &chars_of("size")) {
            !chars_lt(&opt_text_exec(&other.size), &opt_text_exec(&self.size))
        } else {
            true
        }
    }
}

fn opt_text_exec(o: &Option<String>) -> (r: Vec<char>)
    ensures
        r@ == opt_text(*o),
{
    match o {
        Option::Some(x) => chars_of(x.as_str()),
        Option::None => Vec::new(),
    }
}

// ---------------------------------------------------------------------------
// The public sort entry points
// ---------------------------------------------------------------------------

/// The field name a file or process sort normalises to: trimmed and
/// lower-cased.
pub open spec fn norm_field(order_by: Seq<char>) -> Seq<char> {
    lower_seq(trim_seq(order_by))
}

/// Whether a direction is the descending one.
pub open spec fn is_desc(direction: SortDirection) -> bool {
    direction == SortDirection::Descending
}

/// The list is the stable sort of `s0` by the field, in the direction.
pub open spec fn sorted_in_direction<T: FieldOrd>(
    s: Seq<T>,
    field: Seq<char>,
    direction: SortDirection,
) -> bool {
    sorted_dir(s, field, is_desc(direction))
}

fn sort_in_direction<T: FieldOrd>(v: &mut Vec<T>, field: &Vec<char>, direction: &SortDirection)
    ensures
        final(v)@ == sort_spec(old(v)@, field@, is_desc(*direction)),
        final(v)@.to_multiset() == old(v)@.to_multiset(),
        sorted_in_direction(final(v)@, field@, *direction),
{
    let desc = match direction {
        SortDirection::Ascending => false,
        SortDirection::Descending => true,
    };
    sort_by_field(v, field, desc);
}

/// Sorts file records by a field, stably: the result is the stable sort
/// of the input (equal keys keep their relative order, and an unknown
/// field leaves the order exactly as it was). The field name is trimmed
/// and lower-cased first; the descending direction sorts by the flipped
/// comparison.
pub fn sort_results(
    results: &mut Vec<FileInfo>,
    order_by: &str,
    direction: &SortDirection,
) -> (r: Result<(), String>)
    ensures
        r is Ok,
        final(results)@ == sort_spec(old(results)@, norm_field(order_by@), is_desc(*direction)),
        final(results)@.to_multiset() == old(results)@.to_multiset(),
        sorted_in_direction(final(results)@, norm_field(order_by@), *direction),
{
    let t = trim(&chars_of(order_by));
    let f = lower_vec(&t);
    sort_in_direction(results, &f, direction);
    Ok(())
}

/// Sorts process records by a field, as `sort_results` does.
pub fn sort_process_results(
    results: &mut Vec<ProcessInfo>,
    order_by: &str,
    direction: &SortDirection,
) -> (r: Result<(), String>)
    ensures
        r is Ok,
        final(results)@ == sort_spec(old(results)@, norm_field(order_by@), is_desc(*direction)),
        final(results)@.to_multiset() == old(results)@.to_multiset(),
        sorted_in_direction(final(results)@, norm_field(order_by@), *direction),
{
    let t = trim(&chars_of(order_by));
    let f = lower_vec(&t);
    sort_in_direction(results, &f, direction);
    Ok(())
}

/// Sorts socket records by a field, stably. Only `name`, `port` and
/// `pid` may be ordered by; any other field is refused.
pub fn sort_network_results(
    results: &mut Vec<NetInfo>,
    order_by: &str,
    direction: &SortDirection,
) -> (r: Result<(), String>)
    ensures
        match r {
            Ok(()) => {
                &&& (order_by@ == "name"@ || order_by@ == "port"@ || order_by@ == "pid"@)
                &&& final(results)@ == sort_spec(old(results)@, order_by@, is_desc(*direction))
                &&& final(results)@.to_multiset() == old(results)@.to_multiset()
                &&& sorted_in_direction(final(results)@, order_by@, *direction)
            },
            Err(e) => {
                &&& !(order_by@ == "name"@ || order_by@ == "port"@ || order_by@ == "pid"@)
                &&& final(results)@ == old(results)@
                &&& e@ == "Invalid ORDER BY field: "@ + order_by@
            },
        },
{
    if !(str_eq(order_by, "name") || str_eq(order_by, "port") || str_eq(order_by, "pid")) {
        let mut msg = chars_of("Invalid ORDER BY field: ");
        let ob = chars_of(order_by);
        crate::text::push_all(&mut msg, &ob);
        return Err(crate::text::string_of(&msg));
    }
    let f = chars_of(order_by);
    sort_in_direction(results, &f, direction);
    Ok(())
}

/// Sorts application records by a field, stably; the field name is taken
/// as written, and an unknown field leaves the order alone.
pub fn sort_application_results(
    apps: &mut Vec<ApplicationInfo>,
    order_by: &str,
    direction: &SortDirection,
) -> (r: Result<(), String>)
    ensures
        r is Ok,
        final(apps)@ == sort_spec(old(apps)@, order_by@, is_desc(*direction)),
        final(apps)@.to_multiset() == old(apps)@.to_multiset(),
        sorted_in_direction(final(apps)@, order_by@, *direction),
{
    let f = chars_of(order_by);
    sort_in_direction(apps, &f, direction);
    Ok(())
}

} // verus!
