use sunmao::ready::{compute_all_ready, compute_ready, ReadyInput};
use sunmao::state_machine::{ScopeState, TaskState};

#[test]
fn leaf_todo_no_deps_is_ready() {
    let input = ReadyInput {
        node_id: "nd_a".into(),
        kind: "task".into(),
        task_state: Some(TaskState::Todo),
        path: "root.a".into(),
        upstream_task_states: vec![],
        ancestor_scopes: vec![("root".into(), ScopeState::Active)],
    };
    assert!(compute_ready(&input));
}

#[test]
fn blocked_by_upstream() {
    let input = ReadyInput {
        node_id: "nd_b".into(),
        kind: "task".into(),
        task_state: Some(TaskState::Todo),
        path: "root.b".into(),
        upstream_task_states: vec![("nd_a".into(), TaskState::Todo)],
        ancestor_scopes: vec![],
    };
    assert!(!compute_ready(&input));
}

#[test]
fn blocked_by_closed_ancestor() {
    let input = ReadyInput {
        node_id: "nd_a".into(),
        kind: "task".into(),
        task_state: Some(TaskState::Todo),
        path: "root.mod.a".into(),
        upstream_task_states: vec![],
        ancestor_scopes: vec![("root.mod".into(), ScopeState::Closed)],
    };
    assert!(!compute_ready(&input));
}

#[test]
fn upstream_done_makes_ready() {
    let input = ReadyInput {
        node_id: "nd_b".into(),
        kind: "task".into(),
        task_state: Some(TaskState::Todo),
        path: "root.b".into(),
        upstream_task_states: vec![("nd_a".into(), TaskState::Done)],
        ancestor_scopes: vec![],
    };
    assert!(compute_ready(&input));
}

fn base(kind: &str, state: Option<TaskState>) -> ReadyInput {
    ReadyInput {
        node_id: "nd_x".into(),
        kind: kind.into(),
        task_state: state,
        path: "root.x".into(),
        upstream_task_states: vec![],
        ancestor_scopes: vec![],
    }
}

#[test]
fn only_todo_or_ready_tasks_are_ready() {
    assert!(!compute_ready(&base("package", Some(TaskState::Todo))));
    assert!(!compute_ready(&base("task", None)));
    assert!(compute_ready(&base("task", Some(TaskState::Ready))));
    for s in [TaskState::Claimed, TaskState::Running, TaskState::Review, TaskState::Done, TaskState::Failed, TaskState::Cancelled] {
        assert!(!compute_ready(&base("task", Some(s))));
    }
}

#[test]
fn slash_ancestor_and_prefix_lookalike() {
    let mut i = base("task", Some(TaskState::Todo));
    i.path = "root/x".into();
    i.ancestor_scopes = vec![("root".into(), ScopeState::Paused)];
    assert!(!compute_ready(&i));
    let mut j = base("task", Some(TaskState::Todo));
    j.path = "rootx.y".into();
    j.ancestor_scopes = vec![("root".into(), ScopeState::Archived)];
    assert!(compute_ready(&j));
}

#[test]
fn all_ready_matches_single_node_rule() {
    let nodes = vec![
        ("nd_a".to_string(), "task".to_string(), Some(TaskState::Done), "root.a".to_string()),
        ("nd_b".to_string(), "task".to_string(), Some(TaskState::Todo), "root.b".to_string()),
        ("nd_c".to_string(), "task".to_string(), Some(TaskState::Todo), "root.c".to_string()),
        ("nd_d".to_string(), "task".to_string(), Some(TaskState::Todo), "root.mod.d".to_string()),
        ("nd_m".to_string(), "package".to_string(), None, "root.mod".to_string()),
    ];
    let edges = vec![
        ("nd_a".to_string(), "nd_b".to_string()),
        ("nd_b".to_string(), "nd_c".to_string()),
        ("nd_m".to_string(), "nd_c".to_string()),
    ];
    let packages = vec![("nd_m".to_string(), "root.mod".to_string(), ScopeState::Paused)];
    let out = compute_all_ready(&nodes, &edges, &packages);
    assert_eq!(
        out,
        vec![
            ("nd_a".to_string(), false),
            ("nd_b".to_string(), true),
            ("nd_c".to_string(), false),
            ("nd_d".to_string(), false),
            ("nd_m".to_string(), false),
        ]
    );
}
