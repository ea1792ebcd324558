//! Parameter substitution for saved query templates.
//!
//! A template may hold placeholders `$1`, `$2`, … Each is replaced by the
//! argument of that (one-based) position; a placeholder past the argument
//! list fails, and so does an argument no placeholder uses.

use vstd::prelude::*;
use crate::text::{
    is_digit, dec_val, chars_of, push_all, string_of, subvec, fmt_u64, digit, parse_u64,
};

verus! {

/// End of the digit run starting at `i`.
pub open spec fn dig_end(s: Seq<char>, i: int) -> int
    decreases s.len() - i + 1,
{
    if i < 0 || i >= s.len() {
        s.len() as int
    } else if is_digit(s[i]) {
        dig_end(s, i + 1)
    } else {
        i
    }
}

/// The substituted text from `i` on, together with which arguments have
/// been used; `None` when a placeholder asks for an argument that is not
/// there.
pub open spec fn subst_spec(s: Seq<char>, i: int, args: Seq<Seq<char>>, used: Seq<bool>) -> Option<
    (Seq<char>, Seq<bool>),
>
    decreases s.len() - i + 1,
{
    if i < 0 || i >= s.len() {
        Some((Seq::empty(), used))
    } else if s[i] == '$' && i + 1 < s.len() && '1' <= s[i + 1] && s[i + 1] <= '9' {
        let e = dig_end(s, i + 1);
        let n = dec_val(s.subrange(i + 1, e));
        if n < 1 || n > args.len() {
            None
        } else if i + 1 < e <= s.len() {
            match subst_spec(s, e, args, used.update(n - 1, true)) {
                Some(t) => Some((args[n - 1] + t.0, t.1)),
                None => None,
            }
        } else {
            None
        }
    } else {
        match subst_spec(s, i + 1, args, used) {
            Some(t) => Some((seq![s[i]] + t.0, t.1)),
            None => None,
        }
    }
}

/// How many arguments have been used.
pub open spec fn trues(u: Seq<bool>) -> nat {
    u.filter(|b: bool| b).len()
}

/// The argument texts.
pub open spec fn arg_views(args: Seq<String>) -> Seq<Seq<char>> {
    Seq::new(args.len(), |i: int| args[i]@)
}

proof fn lemma_dig_end_digits(s: Seq<char>, i: int)
    requires
        0 <= i <= s.len(),
    ensures
        i <= dig_end(s, i) <= s.len(),
        forall|k: int| i <= k < dig_end(s, i) ==> is_digit(#[trigger] s[k]),
    decreases s.len() - i,
{
    if i < s.len() && is_digit(s[i]) {
        lemma_dig_end_digits(s, i + 1);
    }
}

fn dig_end_exec(s: &Vec<char>, i: usize) -> (r: usize)
    requires
        i <= s@.len(),
    ensures
        r == dig_end(s@, i as int),
        i <= r <= s@.len(),
{
    let mut j = i;
    while j < s.len() && digit(s[j])
        invariant
            i <= j <= s@.len(),
            dig_end(s@, i as int) == dig_end(s@, j as int),
        decreases s@.len() - j,
    {
        j = j + 1;
    }
    j
}

/// Substitutes the arguments into the template text.
///
/// Fails when a placeholder names a position past the argument list, when
/// a placeholder's number cannot be held, and when arguments are left
/// that no placeholder used.
pub fn substitute_variables(query: &str, args: &Vec<String>) -> (r: Result<String, String>)
    ensures
        match r {
            Ok(out) => {
                &&& subst_spec(
                    query@,
                    0,
                    arg_views(args@),
                    Seq::new(args@.len(), |i: int| false),
                ) matches Some(t) && out@ == t.0 && trues(t.1) == args@.len()
            },
            Err(e) => {
                ||| subst_spec(
                    query@,
                    0,
                    arg_views(args@),
                    Seq::new(args@.len(), |i: int| false),
                ) is None
                ||| (subst_spec(
                    query@,
                    0,
                    arg_views(args@),
                    Seq::new(args@.len(), |i: int| false),
                ) matches Some(t) && trues(t.1) < args@.len())
            },
        },
{
    let q = chars_of(query);
    let argc = args.len();
    let ghost argv = arg_views(args@);
    let ghost init = Seq::new(args@.len(), |i: int| false);
    let mut used: Vec<bool> = Vec::new();
    let mut k: usize = 0;
    while k < args.len()
        invariant
            used@.len() == k <= args@.len(),
            forall|j: int| 0 <= j < k ==> !(#[trigger] used@[j]),
        decreases args@.len() - k,
    {
        used.push(false);
        k = k + 1;
    }
    proof {
        assert(used@ =~= init);
    }
    let mut out: Vec<char> = Vec::new();
    let mut i: usize = 0;
    while i < q.len()
        invariant
            i <= q@.len(),
            q@ == query@,
            used@.len() == args@.len(),
            argc == args@.len(),
            argv == arg_views(args@),
            init == Seq::new(args@.len(), |j: int| false),
            match subst_spec(q@, i as int, argv, used@) {
                Some(t) => subst_spec(q@, 0, argv, init) matches Some(w) && w.0 == out@ + t.0
                    && w.1 == t.1,
                None => subst_spec(q@, 0, argv, init) is None,
            },
        decreases q@.len() - i,
    {
        let c = q[i];
        if c == '$' && i + 1 < q.len() && '1' <= q[i + 1] && q[i + 1] <= '9' {
            let e = dig_end_exec(&q, i + 1);
            proof {
                lemma_dig_end_digits(q@, i + 1);
                assert(is_digit(q@[i + 1]));
                assert(dig_end(q@, i + 1) == dig_end(q@, i + 2));
                lemma_dig_end_digits(q@, i + 2);
                assert(e >= i + 2);
            }
            let digs = subvec(&q, i + 1, e);
            proof {
                assert(crate::text::all_digits(digs@));
                assert(digs@.len() > 0);
            }
            let ghost n = dec_val(q@.subrange(i + 1, e as int));
            let idx = match parse_u64(&digs) {
                Some(v) => v,
                None => {
                    proof {
                        assert(n > u64::MAX);
                        assert(args@.len() == argc as int);
                        assert(subst_spec(q@, i as int, argv, used@) is None);
                    }
                    let mut msg = chars_of("Invalid placeholder: $");
                    push_all(&mut msg, &digs);
                    return Err(string_of(&msg));
                },
            };
            if idx < 1 || idx > args.len() as u64 {
                proof {
                    assert(subst_spec(q@, i as int, argv, used@) is None);
                }
                let mut msg = chars_of(
                    "Not enough arguments provided. Template requires at least ",
                );
                push_all(&mut msg, &fmt_u64(idx));
                push_all(&mut msg, &chars_of(" arguments, but only "));
                push_all(&mut msg, &fmt_u64(args.len() as u64));
                push_all(&mut msg, &chars_of(" were given."));
                return Err(string_of(&msg));
            }
            let pos = (idx - 1) as usize;
            let ghost used_pre = used@;
            used.set(pos, true);
            proof {
                assert(used@ =~= used_pre.update(n - 1, true));
            }
            push_all(&mut out, &chars_of(args[pos].as_str()));
            proof {
                assert(argv[pos as int] == args@[pos as int]@);
            }
            i = e;
        } else {
            out.push(c);
            i = i + 1;
        }
    }
    proof {
        assert(subst_spec(q@, q@.len() as int, argv, used@) == Some(
            (Seq::<char>::empty(), used@),
        ));
        assert(out@ + Seq::<char>::empty() =~= out@);
    }
    // Every argument must have been used by some placeholder.
    let mut cnt: usize = 0;
    let mut u: usize = 0;
    while u < used.len()
        invariant
            u <= used@.len(),
            cnt == trues(used@.subrange(0, u as int)),
            cnt <= u,
        decreases used@.len() - u,
    {
        proof {
            reveal(Seq::filter);
            assert(used@.subrange(0, u + 1).drop_last() =~= used@.subrange(0, u as int));
            assert(used@.subrange(0, u + 1).last() == used@[u as int]);
        }
        if used[u] {
            cnt = cnt + 1;
        }
        u = u + 1;
    }
    proof {
        assert(used@.subrange(0, used@.len() as int) =~= used@);
    }
    if cnt < args.len() {
        let mut msg = chars_of("Too many arguments provided. Template only uses ");
        push_all(&mut msg, &fmt_u64(cnt as u64));
        push_all(&mut msg, &chars_of(" placeholders, but "));
        push_all(&mut msg, &fmt_u64(args.len() as u64));
        push_all(&mut msg, &chars_of(" arguments were given."));
        return Err(string_of(&msg));
    }
    proof {
        assert(trues(used@) >= args@.len());
        lemma_trues_le(used@);
    }
    Ok(string_of(&out))
}

proof fn lemma_trues_le(u: Seq<bool>)
    ensures
        trues(u) <= u.len(),
    decreases u.len(),
{
    reveal(Seq::filter);
    if u.len() > 0 {
        lemma_trues_le(u.drop_last());
    }
}

} // verus!
