//! Prefixed ULID identifiers: `pj_` / `nd_` / `ev_` / `at_` / `ar_`.
use vstd::prelude::*;

verus! {

pub type ProjectId = String;

pub type NodeId = String;

pub type EventId = String;

pub type AttemptId = String;

pub type ArtifactId = String;

/// `ulid::Ulid`, carried opaquely.
#[verifier::external_type_specification]
#[verifier::external_body]
pub struct ExUlid(ulid::Ulid);

/// The Crockford base-32 alphabet a ULID is written in.
pub open spec fn crockford_char(c: char) -> bool {
    ('0' <= c && c <= '9') || ('A' <= c && c <= 'H') || c == 'J' || c == 'K' || c == 'M' || c == 'N'
        || ('P' <= c && c <= 'T') || ('V' <= c && c <= 'Z')
}

/// A canonical ULID text: 26 characters of the Crockford alphabet.
pub open spec fn ulid_text(s: Seq<char>) -> bool {
    s.len() == 26 && forall|i: int| 0 <= i < s.len() ==> crockford_char(#[trigger] s[i])
}

/// `ulid::Ulid::generate`: a fresh ULID from the clock and the thread RNG.
/// Nothing is stated of the value: it depends on the time and on chance.
#[verifier::external_body]
fn ulid_generate() -> (u: ulid::Ulid) {
    ulid::Ulid::generate()
}

/// `ulid::Ulid::to_string`: the canonical text of a ULID, which the crate
/// writes as exactly 26 characters of its Crockford alphabet
/// (`ULID_LEN`, `ALPHABET` in `base32.rs`). Which characters is not stated.
#[verifier::external_body]
fn ulid_to_string(u: &ulid::Ulid) -> (s: String)
    ensures
        ulid_text(s@),
{
    u.to_string()
}

/// The 128-bit value of a UUID written as text, or `None` when the text is
/// not one; a function of the text alone.
pub uninterp spec fn uuid_text_value(s: Seq<char>) -> Option<u128>;

/// `uuid::Uuid::parse_str`, taken as its 128-bit value (`as_u128`): `None`
/// when the text is not a UUID in one of the forms the crate reads. Which
/// texts those are is not stated here; the result is named by
/// `uuid_text_value`.
#[verifier::external_body]
pub(crate) fn uuid_value(s: &str) -> (r: Option<u128>)
    ensures
        r == uuid_text_value(s@),
{
    match uuid::Uuid::parse_str(s) {
        Ok(u) => Some(u.as_u128()),
        Err(_) => None,
    }
}

/// A fresh id: the prefix followed by a new ULID.
pub fn new_id(prefix: &str) -> (r: String)
    ensures
        r@.len() == prefix@.len() + 26,
        r@.subrange(0, prefix@.len() as int) == prefix@,
        ulid_text(r@.subrange(prefix@.len() as int, r@.len() as int)),
{
    let u = ulid_generate();
    let tail = ulid_to_string(&u);
    let r = String::from_str(prefix).concat(tail.as_str());
    assert(r@.subrange(0, prefix@.len() as int) =~= prefix@);
    assert(r@.subrange(prefix@.len() as int, r@.len() as int) =~= tail@);
    r
}

/// A fresh event id, `ev_` and a new ULID.
pub fn new_event_id() -> (r: String)
    ensures
        r@.len() == 29,
        r@.subrange(0, 3) == "ev_"@,
        ulid_text(r@.subrange(3, 29)),
{
    proof {
        reveal_strlit("ev_");
    }
    new_id("ev_")
}

} // verus!
