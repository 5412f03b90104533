//! Store errors, and the HTTP reply the service gives for each.
use vstd::prelude::*;
use crate::text::str_eq;

verus! {

/// What can go wrong in the store.
#[derive(Debug, Clone)]
pub enum StoreError {
    /// The database failed, with its message.
    Db(String),
    NotFound(String),
    Conflict { code: String, message: String },
    /// A refused input; `details` is JSON text.
    Validation { code: String, message: String, details: String },
    Git(String),
    Forbidden(String),
    Internal(String),
}

/// The text of an error, as the service prints it.
pub open spec fn error_text(e: StoreError) -> Seq<char> {
    match e {
        StoreError::Db(m) => "database: "@ + m@,
        StoreError::NotFound(m) => "not found: "@ + m@,
        StoreError::Conflict { code, message } => "conflict: "@ + code@ + ": "@ + message@,
        StoreError::Validation { code, message, .. } => "validation: "@ + code@ + ": "@ + message@,
        StoreError::Git(m) => "git: "@ + m@,
        StoreError::Forbidden(m) => "forbidden: "@ + m@,
        StoreError::Internal(m) => "internal: "@ + m@,
    }
}

/// A conflict with the given code and message.
pub open spec fn is_conflict(e: StoreError, code: Seq<char>, message: Seq<char>) -> bool {
    e matches StoreError::Conflict { code: c, message: m } && c@ == code && m@ == message
}

impl StoreError {
    /// The lease is gone: `LEASE_LOST`.
    pub fn lease_lost(msg: &str) -> (r: StoreError)
        ensures
            is_conflict(r, "LEASE_LOST"@, msg@),
    {
        StoreError::Conflict { code: String::from_str("LEASE_LOST"), message: String::from_str(msg) }
    }

    /// The graph moved on since the caller read it: `STALE_GRAPH_VERSION`.
    pub fn stale_graph(msg: &str) -> (r: StoreError)
        ensures
            is_conflict(r, "STALE_GRAPH_VERSION"@, msg@),
    {
        StoreError::Conflict { code: String::from_str("STALE_GRAPH_VERSION"), message: String::from_str(msg) }
    }

    /// A relay attempt submitted before reviewing what it took over.
    pub fn handover_required() -> (r: StoreError)
        ensures
            is_conflict(r, "HANDOVER_REVIEW_REQUIRED"@, "relay attempt must call handover-review before submit"@),
    {
        StoreError::Conflict {
            code: String::from_str("HANDOVER_REVIEW_REQUIRED"),
            message: String::from_str("relay attempt must call handover-review before submit"),
        }
    }

    /// The text of the error.
    pub fn to_text(&self) -> (r: String)
        ensures
            r@ == error_text(*self),
    {
        match self {
            StoreError::Db(m) => String::from_str("database: ").concat(m.as_str()),
            StoreError::NotFound(m) => String::from_str("not found: ").concat(m.as_str()),
            StoreError::Conflict { code, message } => String::from_str("conflict: ").concat(code.as_str()).concat(
                ": ",
            ).concat(message.as_str()),
            StoreError::Validation { code, message, .. } => String::from_str("validation: ").concat(
                code.as_str(),
            ).concat(": ").concat(message.as_str()),
            StoreError::Git(m) => String::from_str("git: ").concat(m.as_str()),
            StoreError::Forbidden(m) => String::from_str("forbidden: ").concat(m.as_str()),
            StoreError::Internal(m) => String::from_str("internal: ").concat(m.as_str()),
        }
    }
}

/// An error reply of the service: HTTP status and the JSON body's fields
/// (`details` as JSON text).
#[derive(Debug, Clone)]
pub struct ErrorReply {
    pub status: u16,
    pub code: String,
    pub message: String,
    pub details: String,
}

/// The reply to a store error: not found 404, conflict 409 with its code,
/// validation 422 with its code and details, forbidden 403 (`HUMAN_ONLY`
/// when that is the reason, else `FORBIDDEN`), anything else 500 `INTERNAL`
/// with the error's text.
pub open spec fn reply_for(e: StoreError) -> (u16, Seq<char>, Seq<char>, Seq<char>) {
    match e {
        StoreError::NotFound(m) => (404u16, "NOT_FOUND"@, m@, "{}"@),
        StoreError::Conflict { code, message } => (409u16, code@, message@, "{}"@),
        StoreError::Validation { code, message, details } => (422u16, code@, message@, details@),
        StoreError::Forbidden(m) => (403u16, if m@ == "HUMAN_ONLY"@ { "HUMAN_ONLY"@ } else { "FORBIDDEN"@ }, m@, "{}"@),
        _ => (500u16, "INTERNAL"@, error_text(e), "{}"@),
    }
}

/// The fields of a reply.
pub open spec fn reply_view(r: ErrorReply) -> (u16, Seq<char>, Seq<char>, Seq<char>) {
    (r.status, r.code@, r.message@, r.details@)
}

fn reply(status: u16, code: &str, message: String, details: String) -> (r: ErrorReply)
    ensures
        reply_view(r) == (status, code@, message@, details@),
{
    ErrorReply { status, code: String::from_str(code), message, details }
}

/// The reply the service gives for a store error.
pub fn map_err(e: &StoreError) -> (r: ErrorReply)
    ensures
        reply_view(r) == reply_for(*e),
{
    match e {
        StoreError::NotFound(m) => reply(404, "NOT_FOUND", m.clone(), String::from_str("{}")),
        StoreError::Conflict { code, message } => reply(409, code.as_str(), message.clone(), String::from_str("{}")),
        StoreError::Validation { code, message, details } => reply(422, code.as_str(), message.clone(), details.clone()),
        StoreError::Forbidden(m) => {
            let code = if str_eq(m.as_str(), "HUMAN_ONLY") {
                "HUMAN_ONLY"
            } else {
                "FORBIDDEN"
            };
            reply(403, code, m.clone(), String::from_str("{}"))
        },
        _ => reply(500, "INTERNAL", e.to_text(), String::from_str("{}")),
    }
}

/// The reply when the actor header is missing or empty.
pub open spec fn missing_actor_reply() -> (u16, Seq<char>, Seq<char>, Seq<char>) {
    (401u16, "MISSING_ACTOR"@, "X-Sunmao-Actor header required"@, "{}"@)
}

/// The acting identity of a request: the `X-Sunmao-Actor` header when it is
/// present, readable and not empty; otherwise 401 `MISSING_ACTOR`.
pub fn require_actor(header: Option<String>) -> (r: Result<String, ErrorReply>)
    ensures
        match header {
            Some(h) if h@.len() > 0 => r matches Ok(a) && a@ == h@,
            _ => r matches Err(rep) && reply_view(rep) == missing_actor_reply(),
        },
{
    match header {
        Some(h) => {
            if h.as_str().unicode_len() > 0 {
                return Ok(h);
            }
        },
        None => {},
    }
    Err(
        reply(
            401,
            "MISSING_ACTOR",
            String::from_str("X-Sunmao-Actor header required"),
            String::from_str("{}"),
        ),
    )
}

} // verus!
