use sunmao::error::StoreError;
use sunmao::git::ScopeDiff;
use sunmao::graph::{GraphSnapshot, NodeDraft, PublishInput};
use sunmao::state_machine::{ScopeState, TaskState};
use sunmao::store::{
    after_failed_attempt, already_committed, artifact_digest, check_lease, commit_message, commit_needle, contract_outcome,
    default_ttl, effective_lease_ttl, event_page_limit, force_cancels_running, heartbeat_check, i64_text, initial_task_state,
    lease_expiry_is_final, needs_handover, node_path, paths_to_discard, publish_gate, reaped_state, require_human,
    scope_change_target, submit_gate, submit_verdict, subtree_filter, tasks_to_cancel, AttemptNext, ClaimSearch,
    ContractOutcome, LeaseFields, NodeBrief, PublishRefused, SubmitStep,
};
use sunmao::store::inject_failure_inputs;
use sunmao::text::sql_like;
use sunmao::validators::{CargoOutcome, WorkspaceProbe};

fn conflict_code(e: &StoreError) -> String {
    match e {
        StoreError::Conflict { code, .. } => code.clone(),
        other => panic!("not a conflict: {other:?}"),
    }
}

#[test]
fn lease_ttl_and_page_limits() {
    assert_eq!(effective_lease_ttl(0), 900);
    assert_eq!(effective_lease_ttl(-5), 900);
    assert_eq!(effective_lease_ttl(60), 60);
    assert_eq!(default_ttl(), 900);
    assert_eq!(event_page_limit(0), 100);
    assert_eq!(event_page_limit(-1), 100);
    assert_eq!(event_page_limit(50), 50);
    assert_eq!(event_page_limit(500), 500);
    assert_eq!(event_page_limit(501), 500);
}

#[test]
fn agents_are_refused_human_only_operations() {
    match require_human("agent:w1") {
        Err(StoreError::Forbidden(m)) => assert_eq!(m, "HUMAN_ONLY"),
        other => panic!("{other:?}"),
    }
    assert!(require_human("human").is_ok());
    assert!(require_human("agentx").is_ok());
}

#[test]
fn scope_actions_map_to_states() {
    assert_eq!(scope_change_target("human", "pause").unwrap(), ScopeState::Paused);
    assert_eq!(scope_change_target("human", "close").unwrap(), ScopeState::Closed);
    assert_eq!(scope_change_target("human", "reopen").unwrap(), ScopeState::Active);
    assert_eq!(scope_change_target("human", "archive").unwrap(), ScopeState::Archived);
    match scope_change_target("human", "explode") {
        Err(StoreError::Validation { code, message, details }) => {
            assert_eq!(code, "INVALID_ACTION");
            assert_eq!(message, "unknown action explode");
            assert_eq!(details, "{}");
        }
        other => panic!("{other:?}"),
    }
    assert!(matches!(scope_change_target("agent:x", "explode"), Err(StoreError::Forbidden(_))));
    assert!(force_cancels_running("close", true));
    assert!(force_cancels_running("pause", true));
    assert!(!force_cancels_running("archive", true));
    assert!(!force_cancels_running("close", false));
}

fn brief(id: &str, kind: &str, path: &str, st: Option<TaskState>) -> NodeBrief {
    NodeBrief { id: id.into(), kind: kind.into(), path: path.into(), task_state: st }
}

#[test]
fn forced_drain_cancels_running_tasks_below_the_package() {
    let nodes = vec![
        brief("t1", "task", "pk.t1", Some(TaskState::Running)),
        brief("t2", "task", "pk.t2", Some(TaskState::Ready)),
        brief("t3", "task", "pkx.t3", Some(TaskState::Claimed)),
        brief("t4", "task", "pk.sub.t4", Some(TaskState::Review)),
        brief("p2", "package", "pk.sub", None),
    ];
    assert_eq!(tasks_to_cancel("pk", &nodes), vec!["t1".to_string(), "t4".to_string()]);
}

#[test]
fn forced_drain_reads_the_package_path_as_a_like_pattern() {
    let nodes = vec![
        brief("t1", "task", "pk_a.t1", Some(TaskState::Running)),
        brief("t2", "task", "pkXa.t2", Some(TaskState::Claimed)),
        brief("t3", "task", "pkXXa.t3", Some(TaskState::Claimed)),
        brief("t4", "task", "pk%.t4", Some(TaskState::Review)),
        brief("t5", "task", "pk_a", Some(TaskState::Running)),
    ];
    assert_eq!(tasks_to_cancel("pk_a", &nodes), vec!["t1".to_string(), "t2".to_string()]);
    assert_eq!(tasks_to_cancel("pk%", &nodes), vec!["t1".to_string(), "t2".to_string(), "t3".to_string(), "t4".to_string()]);
    assert_eq!(tasks_to_cancel("pk\\%", &nodes), vec!["t4".to_string()]);
}

fn lease(token: Option<u128>, exp: Option<i64>, st: Option<TaskState>) -> LeaseFields {
    LeaseFields { lease_token: token, lease_expires: exp, task_state: st }
}

#[test]
fn lease_fencing() {
    let ok = lease(Some(7), Some(1000), Some(TaskState::Claimed));
    assert!(check_lease("nd_l", Some(ok), 7, 999).is_ok());
    assert_eq!(conflict_code(&check_lease("nd_l", Some(ok), 8, 999).unwrap_err()), "LEASE_LOST");
    assert_eq!(conflict_code(&check_lease("nd_l", Some(ok), 7, 1000).unwrap_err()), "LEASE_LOST");
    let done = lease(Some(7), Some(1000), Some(TaskState::Done));
    assert_eq!(conflict_code(&check_lease("nd_l", Some(done), 7, 0).unwrap_err()), "LEASE_LOST");
    match check_lease("nd_l", None, 7, 0) {
        Err(StoreError::NotFound(m)) => assert_eq!(m, "node nd_l"),
        other => panic!("{other:?}"),
    }
    assert!(heartbeat_check("agent:w1", Some("agent:w1".into()), Some(ok), 7, 10).is_ok());
    match heartbeat_check("agent:w2", Some("agent:w1".into()), Some(ok), 7, 10) {
        Err(StoreError::Conflict { code, message }) => {
            assert_eq!(code, "LEASE_LOST");
            assert_eq!(message, "heartbeat rejected");
        }
        other => panic!("{other:?}"),
    }
    assert!(heartbeat_check("agent:w1", Some("agent:w1".into()), None, 7, 10).is_err());
}

#[test]
fn attempts_reopen_until_the_last_one() {
    assert_eq!(after_failed_attempt(1, 3), AttemptNext::Reopened);
    assert_eq!(after_failed_attempt(3, 3), AttemptNext::FailedFinal);
    assert_eq!(AttemptNext::Reopened.as_str(), "reopened");
    assert_eq!(AttemptNext::FailedFinal.as_str(), "failed_final");
    assert!(!lease_expiry_is_final(2, 3));
    assert!(lease_expiry_is_final(3, 3));
    assert_eq!(reaped_state(2, 3), TaskState::Ready);
    assert_eq!(reaped_state(3, 3), TaskState::Failed);
    for s in 0..5 {
        assert_eq!(after_failed_attempt(s, 3) == AttemptNext::FailedFinal, lease_expiry_is_final(s, 3));
    }
}

#[test]
fn relay_submit_needs_handover() {
    assert!(!needs_handover(1));
    assert!(needs_handover(2));
    assert!(submit_gate(1, false).is_ok());
    assert!(submit_gate(2, true).is_ok());
    assert_eq!(conflict_code(&submit_gate(2, false).unwrap_err()), "HANDOVER_REVIEW_REQUIRED");
}

#[test]
fn commit_message_and_needle() {
    let m = commit_message("nd_a", "Build A", 2);
    assert_eq!(m, "task(nd_a): Build A [attempt 2]");
    let n = commit_needle("nd_a");
    assert_eq!(n, "task(nd_a)");
    assert!(m.starts_with(&n));
    assert_eq!(commit_message("x", "", -12), "task(x):  [attempt -12]");
    assert_eq!(i64_text(i64::MIN), "-9223372036854775808");
    assert_eq!(i64_text(0), "0");
}

fn probe(missing: Vec<bool>, cargo: CargoOutcome) -> WorkspaceProbe {
    WorkspaceProbe { missing, cargo }
}

#[test]
fn submit_decisions() {
    let ws = vec!["a/".to_string()];
    let diff = ScopeDiff { in_scope: vec!["a/x.rs".into()], out_scope: vec![] };
    match submit_verdict("nd_a", "A", 1, &vec!["scope-diff".into()], &ws, &diff, &probe(vec![false], CargoOutcome::Passed)).unwrap() {
        SubmitStep::Commit { paths, message } => {
            assert_eq!(paths, vec!["a/x.rs".to_string()]);
            assert_eq!(message, "task(nd_a): A [attempt 1]");
        }
        other => panic!("{other:?}"),
    }
    let empty = ScopeDiff::default();
    match submit_verdict("nd_a", "A", 1, &vec![], &ws, &empty, &probe(vec![], CargoOutcome::Passed)).unwrap() {
        SubmitStep::Failed { failures } => {
            assert_eq!(failures.len(), 1);
            assert_eq!(failures[0].validator, "artifact-exists");
            assert_eq!(failures[0].report, "no in-scope changes to commit");
        }
        other => panic!("{other:?}"),
    }
    let oos = ScopeDiff { in_scope: vec!["a/x.rs".into()], out_scope: vec!["b/y.rs".into()] };
    match submit_verdict("nd_a", "A", 1, &vec![], &ws, &oos, &probe(vec![false], CargoOutcome::Passed)).unwrap() {
        SubmitStep::Failed { failures } => assert_eq!(failures[0].validator, "scope-diff"),
        other => panic!("{other:?}"),
    }
    let down = probe(vec![false], CargoOutcome::CouldNotRun { error: "no cargo".into() });
    match submit_verdict("nd_a", "A", 1, &vec!["cargo-check".into()], &ws, &diff, &down) {
        Err(StoreError::Git(m)) => assert_eq!(m, "no cargo"),
        other => panic!("{other:?}"),
    }
    assert_eq!(already_committed(Some("abc".into()), &vec![]), Some("abc".to_string()));
    assert_eq!(already_committed(Some("abc".into()), &vec!["a".into()]), None);
    assert_eq!(already_committed(None, &vec![]), None);
}

#[test]
fn claim_search_skips_overlapping_candidates() {
    let mut s = ClaimSearch::new();
    assert!(s.may_try());
    let running = vec![vec!["src/".to_string()]];
    assert!(!s.consider(&"nd_x".to_string(), &vec!["src/lib.rs".to_string()], &running));
    assert_eq!(s.skip_ids, vec!["nd_x".to_string()]);
    assert!(s.consider(&"nd_y".to_string(), &vec!["docs/".to_string()], &running));
    assert_eq!(s.tries, 2);
    for i in 2..64 {
        assert!(s.may_try());
        s.consider(&format!("nd_{i}"), &vec!["src/".to_string()], &running);
    }
    assert!(!s.may_try());
}

#[test]
fn subtree_reads() {
    let nodes = vec![
        ("pk".to_string(), "pk".to_string()),
        ("a".to_string(), "pk.a".to_string()),
        ("b".to_string(), "pkb".to_string()),
        ("c".to_string(), "pk.a.c".to_string()),
    ];
    assert_eq!(subtree_filter(&nodes, None), vec![true, true, true, true]);
    assert_eq!(subtree_filter(&nodes, Some("pk".into())), vec![true, true, false, true]);
    assert_eq!(subtree_filter(&nodes, Some("a".into())), vec![false, true, false, true]);
    assert_eq!(subtree_filter(&nodes, Some("zz".into())), vec![true, true, true, true]);
}

fn draft(id: &str, parent: Option<&str>, path: Option<&str>) -> NodeDraft {
    NodeDraft {
        id: id.into(),
        parent_id: parent.map(|s| s.to_string()),
        kind: "task".into(),
        title: id.into(),
        layer: None,
        role: None,
        spec: "{}".into(),
        write_scope: vec![],
        required_caps: vec![],
        validators: vec![],
        inputs: Some(vec![]),
        max_attempts: 3,
        priority: 0,
        path: path.map(|s| s.to_string()),
    }
}

#[test]
fn published_paths() {
    let ups = vec![draft("pk_root", None, Some("root")), draft("nd_01HXABCDEFGH", Some("pk_root"), None)];
    assert_eq!(node_path(&ups[0], None, &ups), "root");
    assert_eq!(node_path(&ups[1], None, &ups), "root.01HXABCD");
    assert_eq!(node_path(&ups[1], Some("stored".into()), &ups), "stored.01HXABCD");
    let orphan = draft("nd_q", Some("pk_missing"), None);
    assert_eq!(node_path(&orphan, None, &ups), "pk_missing.nd_q");
    let bare = draft("nd_z", None, None);
    assert_eq!(node_path(&bare, None, &ups), "nd_z");
    assert_eq!(initial_task_state("task"), Some(TaskState::Todo));
    assert_eq!(initial_task_state("package"), None);
}

fn empty_snapshot() -> GraphSnapshot {
    GraphSnapshot { version: 0, nodes: vec![], edges: vec![], registered_validators: vec!["scope-diff".into()] }
}

#[test]
fn publish_gate_checks_version_then_rules() {
    let snap = empty_snapshot();
    let input = PublishInput { base_version: 1, summary: "s".into(), upsert_nodes: vec![], add_edges: vec![], remove_nodes: vec![] };
    match publish_gate(&snap, &input, 0) {
        Err(PublishRefused::Stale(StoreError::Conflict { code, message })) => {
            assert_eq!(code, "STALE_GRAPH_VERSION");
            assert_eq!(message, "base_version 1 != current 0");
        }
        other => panic!("{other:?}"),
    }
    let mut good = draft("nd_a", None, None);
    good.write_scope = vec!["a/".into()];
    let ok = PublishInput { base_version: 0, summary: "s".into(), upsert_nodes: vec![good.clone()], add_edges: vec![], remove_nodes: vec![] };
    assert_eq!(publish_gate(&snap, &ok, 0).unwrap(), 1);
    let mut bad = good;
    bad.validators = vec!["nope".into()];
    let invalid = PublishInput { base_version: 0, summary: "s".into(), upsert_nodes: vec![bad], add_edges: vec![], remove_nodes: vec![] };
    match publish_gate(&snap, &invalid, 0) {
        Err(PublishRefused::Invalid { message, report }) => {
            assert_eq!(message, "1 violation(s)");
            assert_eq!(report.violations.len(), 1);
        }
        other => panic!("{other:?}"),
    }
}

#[test]
fn contracts_handover_and_digest() {
    assert_eq!(contract_outcome("major"), ContractOutcome::PendingMajor);
    assert_eq!(contract_outcome("minor"), ContractOutcome::Published);
    assert_eq!(ContractOutcome::PendingMajor.as_str(), "pending_major");
    assert_eq!(ContractOutcome::Published.as_str(), "published");
    assert_eq!(
        paths_to_discard(Some("discard_and_redo".into()), Some(vec![Some("a".into()), None, Some("b".into())])),
        Some(vec!["a".to_string(), "b".to_string()])
    );
    assert_eq!(paths_to_discard(Some("reuse".into()), Some(vec![Some("a".into())])), None);
    assert_eq!(paths_to_discard(Some("discard_and_redo".into()), None), None);
    assert_eq!(artifact_digest(Some("d1".into()), "c1"), "d1");
    assert_eq!(artifact_digest(None, "c1"), "c1");
}

#[test]
fn reopened_inputs_carry_the_failure() {
    let r = inject_failure_inputs(Some(vec!["\"ar_1\"".into()]), "{\"reason\":\"x\"}");
    assert_eq!(r, vec!["\"ar_1\"".to_string(), "{\"failure\":{\"reason\":\"x\"},\"type\":\"previous_failure\"}".to_string()]);
    let v: serde_json::Value = serde_json::from_str(&r[1]).unwrap();
    assert_eq!(v.get("type").and_then(|t| t.as_str()), Some("previous_failure"));
    assert_eq!(inject_failure_inputs(None, "null"), vec!["{\"failure\":null,\"type\":\"previous_failure\"}".to_string()]);
}

fn like(s: &str, p: &str) -> bool {
    sql_like(&s.chars().collect(), &p.chars().collect())
}

#[test]
fn like_patterns() {
    assert!(like("abc", "abc"));
    assert!(!like("abcd", "abc"));
    assert!(like("abc", "a_c"));
    assert!(!like("ac", "a_c"));
    assert!(like("", "%"));
    assert!(like("a.b.c", "a.%"));
    assert!(like("axxxb", "a%b"));
    assert!(!like("axxxc", "a%b"));
    assert!(like("a_b", "a\\_b"));
    assert!(!like("axb", "a\\_b"));
    assert!(like("%", "\\%"));
    assert!(like("中文", "_文"));
}
