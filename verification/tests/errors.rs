use sunmao::error::{map_err, require_actor, StoreError};
use sunmao::service::{lease_token_from_body, listen_address};

#[test]
fn store_errors_map_to_replies() {
    let r = map_err(&StoreError::NotFound("task x".into()));
    assert_eq!((r.status, r.code.as_str(), r.message.as_str(), r.details.as_str()), (404, "NOT_FOUND", "task x", "{}"));
    let r = map_err(&StoreError::lease_lost("gone"));
    assert_eq!((r.status, r.code.as_str(), r.message.as_str()), (409, "LEASE_LOST", "gone"));
    let r = map_err(&StoreError::stale_graph("old"));
    assert_eq!((r.status, r.code.as_str()), (409, "STALE_GRAPH_VERSION"));
    let r = map_err(&StoreError::handover_required());
    assert_eq!(r.message, "relay attempt must call handover-review before submit");
    let r = map_err(&StoreError::Validation { code: "GRAPH_INVALID".into(), message: "2 violation(s)".into(), details: "{\"violations\":[]}".into() });
    assert_eq!((r.status, r.code.as_str(), r.details.as_str()), (422, "GRAPH_INVALID", "{\"violations\":[]}"));
    let r = map_err(&StoreError::Forbidden("HUMAN_ONLY".into()));
    assert_eq!((r.status, r.code.as_str()), (403, "HUMAN_ONLY"));
    let r = map_err(&StoreError::Forbidden("nope".into()));
    assert_eq!((r.status, r.code.as_str()), (403, "FORBIDDEN"));
    let r = map_err(&StoreError::Git("boom".into()));
    assert_eq!((r.status, r.code.as_str(), r.message.as_str()), (500, "INTERNAL", "git: boom"));
    let r = map_err(&StoreError::Db("down".into()));
    assert_eq!(r.message, "database: down");
    assert_eq!(StoreError::Internal("x".into()).to_text(), "internal: x");
    assert_eq!(StoreError::Conflict { code: "C".into(), message: "m".into() }.to_text(), "conflict: C: m");
}

#[test]
fn actor_header_is_required() {
    assert_eq!(require_actor(Some("agent:w1".into())).unwrap(), "agent:w1");
    let r = require_actor(Some("".into())).unwrap_err();
    assert_eq!((r.status, r.code.as_str(), r.message.as_str()), (401, "MISSING_ACTOR", "X-Sunmao-Actor header required"));
    assert_eq!(require_actor(None).unwrap_err().status, 401);
}

#[test]
fn lease_tokens_and_listen_address() {
    assert_eq!(lease_token_from_body(Some("00000000-0000-0000-0000-000000000001".into())).unwrap(), 1);
    let r = lease_token_from_body(Some("x".into())).unwrap_err();
    assert_eq!((r.status, r.code.as_str(), r.message.as_str()), (422, "MISSING_TOKEN", "lease_token required"));
    assert!(lease_token_from_body(None).is_err());
    assert_eq!(listen_address("127.0.0.1:7420", false), "127.0.0.1:7420");
    assert_eq!(listen_address("127.0.0.1:7420", true), "0.0.0.0:7420");
    assert_eq!(listen_address("localhost:80", true), "0.0.0.0:80");
    assert_eq!(listen_address("10.0.0.1:80", true), "10.0.0.1:80");
}
