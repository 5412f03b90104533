use sunmao::projection::{apply_recompute, rebuild_projection, recompute_all, verify_ready_consistent, ProjEvent, ProjNode};
use sunmao::ready::compute_all_ready;
use sunmao::state_machine::{ScopeState, TaskState};

fn node(id: &str, kind: &str, path: &str, st: Option<TaskState>) -> ProjNode {
    ProjNode {
        id: id.into(),
        kind: kind.into(),
        path: path.into(),
        task_state: st,
        ready: false,
        owner: None,
        lease_token: None,
        lease_expires: None,
        needs_replan: false,
        scope_state: "active".into(),
    }
}

fn ev(kind: &str, node_id: Option<&str>) -> ProjEvent {
    ProjEvent {
        node_id: node_id.map(|s| s.to_string()),
        kind: kind.into(),
        owner: None,
        lease_token: None,
        final_flag: None,
        verdict: None,
        to: None,
        affected: None,
    }
}

fn edge(a: &str, b: &str) -> (String, String) {
    (a.into(), b.into())
}

fn chain() -> (Vec<ProjNode>, Vec<(String, String)>) {
    let nodes = vec![
        node("pk", "package", "pk", None),
        node("nd_a", "task", "pk.a", Some(TaskState::Todo)),
        node("nd_b", "task", "pk.b", Some(TaskState::Todo)),
    ];
    (nodes, vec![edge("nd_a", "nd_b")])
}

#[test]
fn rebuild_replays_claim_done_and_recomputes_ready() {
    let (nodes, edges) = chain();
    let mut claimed = ev("task.claimed", Some("nd_a"));
    claimed.owner = Some("agent:w1".into());
    claimed.lease_token = Some("550e8400-e29b-41d4-a716-446655440000".into());
    let events = vec![ev("graph.published", None), claimed, ev("task.done", Some("nd_a")), ev("task.heartbeat", Some("nd_a"))];
    let r = rebuild_projection(&nodes, &edges, &events);
    assert_eq!(r.events_applied, 3);
    assert_eq!(r.nodes[1].task_state, Some(TaskState::Done));
    assert_eq!(r.nodes[1].owner, None);
    assert_eq!(r.nodes[1].lease_token, None);
    assert_eq!(r.nodes[2].task_state, Some(TaskState::Ready));
    assert!(r.nodes[2].ready);
    assert_eq!(r.ready, vec!["nd_b".to_string()]);
    assert!(r.consistent);
}

#[test]
fn claim_keeps_owner_and_parses_token() {
    let (nodes, edges) = chain();
    let mut claimed = ev("task.claimed", Some("nd_a"));
    claimed.lease_token = Some("a1a2a3a4-b1b2-c1c2-d1d2-d3d4d5d6d7d8".into());
    let r = rebuild_projection(&nodes, &edges, &vec![claimed]);
    assert_eq!(r.nodes[1].task_state, Some(TaskState::Claimed));
    assert_eq!(r.nodes[1].owner.as_deref(), Some("unknown"));
    assert_eq!(r.nodes[1].lease_token, Some(0xa1a2a3a4b1b2c1c2d1d2d3d4d5d6d7d8));
    assert!(!r.nodes[1].ready);
    assert!(r.ready.is_empty());
    let mut bad = ev("task.claimed", Some("nd_a"));
    bad.lease_token = Some("not-a-uuid".into());
    let r2 = rebuild_projection(&nodes, &edges, &vec![bad]);
    assert_eq!(r2.nodes[1].lease_token, None);
}

#[test]
fn rebuild_restores_after_corruption() {
    let (nodes, edges) = chain();
    let events = vec![ev("task.done", Some("nd_a"))];
    let clean = rebuild_projection(&nodes, &edges, &events);
    let mut corrupted = clean.nodes.clone();
    corrupted[1].task_state = Some(TaskState::Failed);
    corrupted[2].owner = Some("intruder".into());
    corrupted[2].needs_replan = true;
    corrupted[0].scope_state = "closed".into();
    let again = rebuild_projection(&corrupted, &edges, &events);
    for (a, b) in clean.nodes.iter().zip(again.nodes.iter()) {
        assert_eq!(a.task_state, b.task_state);
        assert_eq!(a.ready, b.ready);
        assert_eq!(a.owner, b.owner);
        assert_eq!(a.needs_replan, b.needs_replan);
        assert_eq!(a.scope_state, b.scope_state);
    }
    assert_eq!(clean.ready, again.ready);
}

#[test]
fn lease_expiry_and_validation_reopen() {
    let (nodes, edges) = chain();
    let mut expired = ev("task.lease_expired", Some("nd_a"));
    expired.final_flag = Some(false);
    let r = rebuild_projection(&nodes, &edges, &vec![ev("task.claimed", Some("nd_a")), expired]);
    assert_eq!(r.nodes[1].task_state, Some(TaskState::Ready));
    assert!(r.nodes[1].ready);
    let mut fin = ev("task.lease_expired", Some("nd_a"));
    fin.final_flag = Some(true);
    let mut validated = ev("task.validated", Some("nd_a"));
    validated.verdict = Some("failed".into());
    let r2 = rebuild_projection(&nodes, &edges, &vec![fin, validated.clone()]);
    assert_eq!(r2.nodes[1].task_state, Some(TaskState::Failed));
    assert_eq!(r2.events_applied, 2);
    let r3 = rebuild_projection(&nodes, &edges, &vec![ev("task.claimed", Some("nd_a")), validated]);
    assert_eq!(r3.nodes[1].task_state, Some(TaskState::Ready));
    let mut passed = ev("task.validated", Some("nd_a"));
    passed.verdict = Some("passed".into());
    assert_eq!(rebuild_projection(&nodes, &edges, &vec![passed]).events_applied, 0);
}

#[test]
fn closed_package_blocks_and_impact_marks() {
    let (nodes, edges) = chain();
    let mut closed = ev("package.scope_changed", Some("pk"));
    closed.to = Some("closed".into());
    let mut impact = ev("contract.impact_marked", None);
    impact.affected = Some(vec![Some("nd_b".into()), None, Some("ghost".into())]);
    let r = rebuild_projection(&nodes, &edges, &vec![closed, impact]);
    assert_eq!(r.nodes[0].scope_state, "closed");
    assert_eq!(r.nodes[1].task_state, Some(TaskState::Todo));
    assert!(!r.nodes[1].ready);
    assert!(r.nodes[2].needs_replan);
    assert!(!r.nodes[1].needs_replan);
    assert_eq!(r.events_applied, 2);
    assert!(r.ready.is_empty());
    assert!(r.consistent);
}

#[test]
fn cancelled_and_failed_events() {
    let (nodes, edges) = chain();
    let r = rebuild_projection(&nodes, &edges, &vec![ev("task.cancelled", Some("nd_b")), ev("task.failed", Some("nd_a"))]);
    assert_eq!(r.nodes[2].task_state, Some(TaskState::Cancelled));
    assert_eq!(r.nodes[1].task_state, Some(TaskState::Failed));
    assert_eq!(r.events_applied, 2);
    assert_eq!(rebuild_projection(&nodes, &edges, &vec![ev("task.done", None)]).events_applied, 0);
}

#[test]
fn recompute_and_consistency_check() {
    let (mut nodes, edges) = chain();
    nodes[1].task_state = Some(TaskState::Done);
    nodes[2].ready = false;
    assert!(!verify_ready_consistent(&nodes, &edges));
    let expected = recompute_all(&nodes, &edges);
    assert_eq!(expected, vec![("nd_a".to_string(), false), ("nd_b".to_string(), true)]);
    let (after, ready) = apply_recompute(&nodes, &edges);
    assert_eq!(ready, vec!["nd_b".to_string()]);
    assert_eq!(after[2].task_state, Some(TaskState::Ready));
    assert!(verify_ready_consistent(&after, &edges));
}

#[test]
fn rebuilding_twice_changes_nothing() {
    let (mut nodes, edges) = chain();
    nodes[0].task_state = Some(TaskState::Failed);
    let mut reopen = ev("task.validated", Some("pk"));
    reopen.verdict = Some("failed".into());
    let mut scope = ev("package.scope_changed", Some("nd_a"));
    scope.to = Some("paused".into());
    let events = vec![reopen, scope, ev("task.claimed", Some("nd_b"))];
    let once = rebuild_projection(&nodes, &edges, &events);
    let twice = rebuild_projection(&once.nodes, &edges, &events);
    for (a, b) in once.nodes.iter().zip(twice.nodes.iter()) {
        assert_eq!((a.task_state, a.ready, &a.owner, a.lease_token, a.needs_replan, &a.scope_state), (b.task_state, b.ready, &b.owner, b.lease_token, b.needs_replan, &b.scope_state));
    }
    assert_eq!(once.nodes[0].task_state, Some(TaskState::Failed));
    assert_eq!(once.nodes[1].scope_state, "paused");
    assert_eq!(once.ready, twice.ready);
    assert_eq!(once.events_applied, 3);
}

#[test]
fn snapshot_rule_and_recompute_agree() {
    let mut nodes = vec![
        node("pk", "package", "pk", None),
        node("pk2", "package", "pk.sub", None),
        node("nd_a", "task", "pk.a", Some(TaskState::Done)),
        node("nd_b", "task", "pk.b", Some(TaskState::Todo)),
        node("nd_c", "task", "pk.sub.c", Some(TaskState::Ready)),
        node("nd_d", "task", "pk.d", Some(TaskState::Claimed)),
        node("nd_e", "task", "pk.e", Some(TaskState::Todo)),
    ];
    nodes[1].scope_state = "paused".into();
    let edges = vec![edge("nd_a", "nd_b"), edge("nd_d", "nd_e")];
    let records: Vec<(String, String, Option<TaskState>, String)> =
        nodes.iter().map(|n| (n.id.clone(), n.kind.clone(), n.task_state, n.path.clone())).collect();
    let packages = vec![
        ("pk".to_string(), "pk".to_string(), ScopeState::Active),
        ("pk2".to_string(), "pk.sub".to_string(), ScopeState::Paused),
    ];
    let snap = compute_all_ready(&records, &edges, &packages);
    let rec = recompute_all(&nodes, &edges);
    let tasks: Vec<(String, bool)> = snap.into_iter().filter(|(id, _)| id.starts_with("nd_")).collect();
    assert_eq!(tasks, rec);
    assert_eq!(rec, vec![
        ("nd_a".to_string(), false),
        ("nd_b".to_string(), true),
        ("nd_c".to_string(), false),
        ("nd_d".to_string(), false),
        ("nd_e".to_string(), false),
    ]);
}
