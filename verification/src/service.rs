//! The HTTP service's own decisions: where it listens, and how a lease
//! token is read from a request.
use vstd::prelude::*;
use crate::text::{chars_of, string_of, find_sub, occurs_at, contains_sub};
use crate::error::{ErrorReply, reply_view};
use crate::id::{uuid_text_value, uuid_value};

verus! {

/// `pat` occurs in `s` at `i` and nowhere before.
pub open spec fn first_at(s: Seq<char>, pat: Seq<char>, i: int) -> bool {
    occurs_at(s, pat, i) && forall|j: int| 0 <= j < i ==> !#[trigger] occurs_at(s, pat, j)
}

/// `s` with the first occurrence of `pat` replaced by `with`
/// (`replacen(pat, with, 1)`), or `s` itself when `pat` does not occur.
pub open spec fn replace_first(s: Seq<char>, pat: Seq<char>, with: Seq<char>) -> Seq<char> {
    if contains_sub(s, pat) {
        let i = choose|i: int| first_at(s, pat, i);
        s.subrange(0, i) + with + s.subrange(i + pat.len(), s.len() as int)
    } else {
        s
    }
}

fn replace_first_exec(s: &str, pat: &str, with: &str) -> (r: String)
    ensures
        r@ == replace_first(s@, pat@, with@),
{
    let sc = chars_of(s);
    let pc = chars_of(pat);
    match find_sub(&sc, &pc) {
        None => String::from_str(s),
        Some(i) => {
            proof {
                assert(first_at(s@, pat@, i as int));
                let k = choose|k: int| first_at(s@, pat@, k);
                if k < i {
                    assert(!occurs_at(s@, pat@, k));
                }
                if i < k {
                    assert(!occurs_at(s@, pat@, i as int));
                }
                assert(k == i);
            }
            let mut out: Vec<char> = Vec::new();
            let mut j: usize = 0;
            while j < i
                invariant
                    j <= i,
                    i + pc@.len() <= sc@.len(),
                    out@ == sc@.subrange(0, j as int),
                decreases i - j,
            {
                out.push(sc[j]);
                assert(sc@.subrange(0, j + 1) =~= sc@.subrange(0, j as int).push(sc@[j as int]));
                j = j + 1;
            }
            let wc = chars_of(with);
            let mut k: usize = 0;
            while k < wc.len()
                invariant
                    k <= wc@.len(),
                    i + pc@.len() <= sc@.len(),
                    out@ == sc@.subrange(0, i as int) + wc@.subrange(0, k as int),
                decreases wc.len() - k,
            {
                out.push(wc[k]);
                assert(wc@.subrange(0, k + 1) =~= wc@.subrange(0, k as int).push(wc@[k as int]));
                k = k + 1;
            }
            assert(wc@.subrange(0, wc@.len() as int) =~= wc@);
            let plen: usize = pc.len();
            let slen: usize = sc.len();
            assert(i + plen <= slen);
            let mut m: usize = i + plen;
            let ghost head = out@;
            while m < sc.len()
                invariant
                    i + pc@.len() <= m <= sc@.len(),
                    out@ == head + sc@.subrange(i + pc@.len(), m as int),
                decreases sc.len() - m,
            {
                out.push(sc[m]);
                assert(sc@.subrange(i + pc@.len(), m + 1) =~= sc@.subrange(i + pc@.len(), m as int).push(sc@[m as int]));
                m = m + 1;
            }
            string_of(&out)
        },
    }
}

/// The address the service listens on. Opting in to exposure turns the
/// first `127.0.0.1`, then the first `localhost`, into `0.0.0.0`; without
/// it the address is used as given.
pub fn listen_address(listen: &str, unsafe_expose: bool) -> (r: String)
    ensures
        r@ == (if unsafe_expose {
            replace_first(replace_first(listen@, "127.0.0.1"@, "0.0.0.0"@), "localhost"@, "0.0.0.0"@)
        } else {
            listen@
        }),
{
    if unsafe_expose {
        let a = replace_first_exec(listen, "127.0.0.1", "0.0.0.0");
        replace_first_exec(a.as_str(), "localhost", "0.0.0.0")
    } else {
        String::from_str(listen)
    }
}

/// The reply when a request under a lease names no readable token.
pub open spec fn missing_token_reply() -> (u16, Seq<char>, Seq<char>, Seq<char>) {
    (422u16, "MISSING_TOKEN"@, "lease_token required"@, "{}"@)
}

/// The lease token a request body names (`lease_token`, when it is a
/// string): its UUID value, or 422 `MISSING_TOKEN` when it is absent or not
/// a UUID.
pub fn lease_token_from_body(token: Option<String>) -> (r: Result<u128, ErrorReply>)
    ensures
        match token {
            Some(t) if uuid_text_value(t@) is Some => r == Ok::<u128, ErrorReply>(uuid_text_value(t@).unwrap()),
            _ => r matches Err(rep) && reply_view(rep) == missing_token_reply(),
        },
{
    let parsed = match &token {
        Some(t) => uuid_value(t.as_str()),
        None => None,
    };
    match parsed {
        Some(v) => Ok(v),
        None => Err(
            ErrorReply {
                status: 422,
                code: String::from_str("MISSING_TOKEN"),
                message: String::from_str("lease_token required"),
                details: String::from_str("{}"),
            },
        ),
    }
}

} // verus!
