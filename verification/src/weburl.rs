//! Target classification and safety: whether a FROM target is a web
//! address, which web addresses are acceptable, and tilde expansion of
//! filesystem targets.

use vstd::prelude::*;
use crate::size::first_dot;
use crate::text::{
    str_eq, chars_of, push_all, string_of, subvec, is_at, all_digits, dec_val, is_digit,
    parse_u64,
};

verus! {

/// The scheme that the URL parser reads out of a text, when the text is
/// a well-formed URL; what it is for given characters is the parser's
/// affair, named here so contracts can speak of it.
pub uninterp spec fn scheme_of(s: Seq<char>) -> Option<Seq<char>>;

/// The host text the URL parser reads out of a well-formed URL, when the
/// URL carries one.
pub uninterp spec fn host_of(s: Seq<char>) -> Option<Seq<char>>;

/// Relies on `url::Url::parse`, `Url::scheme` and `Url::host_str`:
/// parsing either fails or yields a URL whose scheme and host text are
/// functions of the input alone.
#[verifier::external_body]
fn url_parts(s: &str) -> (r: Result<(String, Option<String>), String>)
    ensures
        (r is Ok) == (scheme_of(s@) is Some),
        r matches Ok(p) ==> scheme_of(s@) matches Some(v) && p.0@ == v,
        r matches Ok(p) ==> match (p.1, host_of(s@)) {
            (Option::Some(h), Option::Some(hh)) => h@ == hh,
            (Option::None, Option::None) => true,
            _ => false,
        },
{
    match url::Url::parse(s) {
        Ok(u) => Ok((u.scheme().to_string(), u.host_str().map(|h| h.to_string()))),
        Err(e) => Err(e.to_string()),
    }
}

/// The scheme is the web's.
pub open spec fn web_scheme(s: Seq<char>) -> bool {
    scheme_of(s) == Some("http"@) || scheme_of(s) == Some("https"@)
}

/// Whether a FROM target is a web address: it parses as a URL and its
/// scheme is `http` or `https`.
pub fn is_url(s: &str) -> (r: bool)
    ensures
        r == web_scheme(s@),
{
    match url_parts(s) {
        Ok(p) => str_eq(p.0.as_str(), "http") || str_eq(p.0.as_str(), "https"),
        Err(_) => false,
    }
}

// ---------------------------------------------------------------------------
// URL safety
// ---------------------------------------------------------------------------

/// A host that names the local machine: `localhost`, the loopback block,
/// or the unspecified address.
pub open spec fn localhost_host(h: Seq<char>) -> bool {
    h == "localhost"@ || is_at(h, 0, "127."@) || h == "0.0.0.0"@
}

/// A decimal IPv4 octet: one to three digits, no leading zero, at most
/// 255.
pub open spec fn octet_ok(g: Seq<char>) -> bool {
    &&& 1 <= g.len() <= 3
    &&& all_digits(g)
    &&& (g.len() == 1 || g[0] != '0')
    &&& dec_val(g) <= 255
}

/// The four octet values of a dotted-quad host, when it is one.
pub open spec fn ipv4_of(s: Seq<char>) -> Option<(nat, nat, nat, nat)> {
    match first_dot(s, 0) {
        None => None,
        Some(d1) => match first_dot(s, d1 + 1) {
            None => None,
            Some(d2) => match first_dot(s, d2 + 1) {
                None => None,
                Some(d3) => if first_dot(s, d3 + 1) is None {
                    let g1 = s.subrange(0, d1);
                    let g2 = s.subrange(d1 + 1, d2);
                    let g3 = s.subrange(d2 + 1, d3);
                    let g4 = s.subrange(d3 + 1, s.len() as int);
                    if octet_ok(g1) && octet_ok(g2) && octet_ok(g3) && octet_ok(g4) {
                        Some((dec_val(g1), dec_val(g2), dec_val(g3), dec_val(g4)))
                    } else {
                        None
                    }
                } else {
                    None
                },
            },
        },
    }
}

/// The private and link-local IPv4 blocks the core refuses.
pub open spec fn private_ipv4(o: (nat, nat, nat, nat)) -> bool {
    ||| o.0 == 10
    ||| (o.0 == 172 && 16 <= o.1 <= 31)
    ||| (o.0 == 192 && o.1 == 168)
    ||| (o.0 == 169 && o.1 == 254)
}

fn octet_exec(g: &Vec<char>) -> (r: Option<u8>)
    ensures
        match r {
            Some(v) => octet_ok(g@) && v == dec_val(g@),
            None => !octet_ok(g@),
        },
{
    if g.len() < 1 || g.len() > 3 {
        return None;
    }
    if g.len() > 1 && g[0] == '0' {
        return None;
    }
    match parse_u64(g) {
        Some(v) => {
            if v <= 255 {
                Some(v as u8)
            } else {
                None
            }
        },
        None => {
            proof {
                if all_digits(g@) {
                    // A run of at most three digits is far below the
                    // parser's overflow bound, so failure means a
                    // non-digit was there.
                    lemma_small_dec(g@);
                    assert(crate::size::pow10(0) == 1);
                    assert(crate::size::pow10(1) == 10);
                    assert(crate::size::pow10(2) == 100);
                    assert(crate::size::pow10(3) == 1000);
                    assert(dec_val(g@) <= 999);
                }
            }
            None
        },
    }
}

proof fn lemma_small_dec(g: Seq<char>)
    requires
        all_digits(g),
    ensures
        dec_val(g) < crate::size::pow10(g.len()),
    decreases g.len(),
{
    if g.len() == 0 {
        assert(crate::size::pow10(0) == 1);
    } else {
        assert(all_digits(g.drop_last())) by {
            assert(forall|i: int|
                0 <= i < g.len() - 1 ==> is_digit(#[trigger] g.drop_last()[i]));
        };
        lemma_small_dec(g.drop_last());
        assert(is_digit(g.last()));
        assert(crate::size::pow10(g.len()) == 10 * crate::size::pow10((g.len() - 1) as nat));
    }
}

fn first_dot_exec(s: &Vec<char>, i: usize) -> (r: Option<usize>)
    requires
        i <= s@.len(),
    ensures
        match r {
            Some(j) => first_dot(s@, i as int) == Some(j as int) && i <= j < s@.len(),
            None => first_dot(s@, i as int) is None,
        },
{
    let mut j = i;
    while j < s.len() && s[j] != '.'
        invariant
            i <= j <= s@.len(),
            first_dot(s@, i as int) == first_dot(s@, j as int),
        decreases s@.len() - j,
    {
        j = j + 1;
    }
    if j < s.len() {
        Some(j)
    } else {
        None
    }
}

/// Reads a host as a dotted-quad IPv4 address, when it is one.
fn parse_ipv4(h: &Vec<char>) -> (r: Option<(u8, u8, u8, u8)>)
    ensures
        match r {
            Some(o) => ipv4_of(h@) == Some(
                (o.0 as nat, o.1 as nat, o.2 as nat, o.3 as nat),
            ),
            None => ipv4_of(h@) is None,
        },
{
    let n = h.len();
    let d1 = match first_dot_exec(h, 0) {
        Some(d) => d,
        None => {
            return None;
        },
    };
    proof {
        assert(d1 < n);
    }
    let d2 = match first_dot_exec(h, d1 + 1) {
        Some(d) => d,
        None => {
            return None;
        },
    };
    proof {
        assert(d2 < n);
    }
    let d3 = match first_dot_exec(h, d2 + 1) {
        Some(d) => d,
        None => {
            return None;
        },
    };
    proof {
        assert(d3 < n);
    }
    if first_dot_exec(h, d3 + 1).is_some() {
        return None;
    }
    let g1 = subvec(h, 0, d1);
    let g2 = subvec(h, d1 + 1, d2);
    let g3 = subvec(h, d2 + 1, d3);
    let g4 = subvec(h, d3 + 1, h.len());
    match (octet_exec(&g1), octet_exec(&g2), octet_exec(&g3), octet_exec(&g4)) {
        (Some(a), Some(b), Some(c), Some(d)) => Some((a, b, c, d)),
        _ => None,
    }
}

/// Whether the URL is acceptable to fetch: it must parse, its scheme must
/// be the web's, and its host may neither name the local machine nor lie
/// in a private or link-local IPv4 block.
pub fn validate_url(url_str: &str) -> (r: Result<(), String>)
    ensures
        match r {
            Ok(()) => {
                &&& web_scheme(url_str@)
                &&& host_of(url_str@) matches Some(h) ==> (!localhost_host(h) && (ipv4_of(
                    h,
                ) matches Some(o) ==> !private_ipv4(o)))
            },
            Err(e) => {
                ||| (scheme_of(url_str@) is None && is_at(e@, 0, "Invalid URL: "@))
                ||| (scheme_of(url_str@) is Some && !web_scheme(url_str@) && e@
                    == "Only HTTP and HTTPS URLs are allowed"@)
                ||| (web_scheme(url_str@) && (host_of(url_str@) matches Some(h)
                    && localhost_host(h)) && e@
                    == "Localhost URLs are not allowed for security reasons"@)
                ||| (web_scheme(url_str@) && (host_of(url_str@) matches Some(h) && (ipv4_of(
                    h,
                ) matches Some(o) && private_ipv4(o))) && e@
                    == "Private IP addresses are not allowed"@)
            },
        },
{
    let (scheme, host) = match url_parts(url_str) {
        Ok(p) => p,
        Err(pe) => {
            let mut msg = chars_of("Invalid URL: ");
            let ghost pre = msg@;
            push_all(&mut msg, &chars_of(pe.as_str()));
            proof {
                assert(msg@.subrange(0, pre.len() as int) =~= pre);
            }
            return Err(string_of(&msg));
        },
    };
    if !(str_eq(scheme.as_str(), "http") || str_eq(scheme.as_str(), "https")) {
        return Err(string_of(&chars_of("Only HTTP and HTTPS URLs are allowed")));
    }
    let host = match host {
        Option::Some(h) => h,
        Option::None => {
            return Ok(());
        },
    };
    let hv = chars_of(host.as_str());
    let local = str_eq(host.as_str(), "localhost") || match_starts_127(&hv) || str_eq(
        host.as_str(),
        "0.0.0.0",
    );
    if local {
        return Err(
            string_of(&chars_of("Localhost URLs are not allowed for security reasons")),
        );
    }
    match parse_ipv4(&hv) {
        Some(o) => {
            let private = o.0 == 10 || (o.0 == 172 && 16 <= o.1 && o.1 <= 31) || (o.0 == 192
                && o.1 == 168) || (o.0 == 169 && o.1 == 254);
            if private {
                Err(string_of(&chars_of("Private IP addresses are not allowed")))
            } else {
                Ok(())
            }
        },
        None => Ok(()),
    }
}

fn match_starts_127(h: &Vec<char>) -> (r: bool)
    ensures
        r == is_at(h@, 0, "127."@),
{
    let p = chars_of("127.");
    crate::text::match_at(h, 0, &p)
}

/// What tilde expansion makes of a path, given the home directory if one
/// is known: `~` alone becomes the home directory, a leading `~/` is
/// replaced by it, and anything else (or an unknown home) passes through.
pub open spec fn expand_spec(p: Seq<char>, h: Option<Seq<char>>) -> Seq<char> {
    match h {
        Some(home) => if p.len() >= 1 && p[0] == '~' {
            if p.len() == 1 {
                home
            } else if p[1] == '/' {
                home + seq!['/'] + p.skip(2)
            } else {
                p
            }
        } else {
            p
        },
        None => p,
    }
}

/// Relies on `dirs::home_dir`: the home directory depends on the
/// environment, so nothing is promised of the value.
#[verifier::external_body]
fn dirs_home() -> (r: Option<String>) {
    dirs::home_dir().map(|p| p.to_string_lossy().to_string())
}

/// Expands a leading tilde against a given home directory.
pub fn expand_with_home(path: &str, home: &Option<String>) -> (r: String)
    ensures
        r@ == expand_spec(path@, match home {
            Option::Some(h) => Some(h@),
            Option::None => None,
        }),
{
    let p = chars_of(path);
    match home {
        Option::Some(h) => {
            if p.len() >= 1 && p[0] == '~' {
                if p.len() == 1 {
                    h.clone()
                } else if p[1] == '/' {
                    let mut out = chars_of(h.as_str());
                    out.push('/');
                    let rest = subvec(&p, 2, p.len());
                    push_all(&mut out, &rest);
                    proof {
                        assert(rest@ =~= path@.skip(2));
                    }
                    string_of(&out)
                } else {
                    path.to_owned()
                }
            } else {
                path.to_owned()
            }
        },
        Option::None => path.to_owned(),
    }
}

/// Expands a leading tilde against the machine's home directory. Which
/// directory that is depends on the environment; a path that does not
/// start with a tilde always passes through unchanged.
pub fn expand_path(path: &str) -> (r: String)
    ensures
        (path@.len() == 0 || path@[0] != '~') ==> r@ == path@,
        exists|h: Option<Seq<char>>| r@ == expand_spec(path@, h),
{
    let home = dirs_home();
    let r = expand_with_home(path, &home);
    proof {
        let gh: Option<Seq<char>> = match home {
            Option::Some(h) => Some(h@),
            Option::None => None,
        };
        assert(r@ == expand_spec(path@, gh));
    }
    r
}

} // verus!
