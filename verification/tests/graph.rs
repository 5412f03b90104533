use sunmao::graph::{
    builtin_validators, ready_after_publish, short_id, topo_sort, validate_publish, EdgeDraft, ExistingNode,
    GraphSnapshot, GraphViolation, NodeDraft, PublishInput,
};
use sunmao::state_machine::TaskState;

fn empty_snap() -> GraphSnapshot {
    GraphSnapshot {
        version: 0,
        nodes: vec![],
        edges: vec![],
        registered_validators: builtin_validators(),
    }
}

fn task(id: &str, scope: &str, path: &str) -> NodeDraft {
    NodeDraft {
        id: id.into(),
        parent_id: None,
        kind: "task".into(),
        title: id.into(),
        layer: None,
        role: None,
        spec: "{}".into(),
        write_scope: vec![scope.into()],
        required_caps: vec![],
        validators: vec!["scope-diff".into()],
        inputs: Some(vec![]),
        max_attempts: 3,
        priority: 0,
        path: Some(path.into()),
    }
}

fn edge(from: &str, to: &str) -> EdgeDraft {
    EdgeDraft { from: from.into(), to: to.into() }
}

#[test]
fn accepts_simple_chain() {
    let mut a = task("nd_a", "a/", "a");
    a.title = "A".into();
    let mut b = task("nd_b", "b/", "b");
    b.title = "B".into();
    let input = PublishInput {
        base_version: 0,
        summary: "chain".into(),
        upsert_nodes: vec![a, b],
        add_edges: vec![edge("nd_a", "nd_b")],
        remove_nodes: vec![],
    };
    let r = validate_publish(&empty_snap(), &input);
    assert!(r.is_ok(), "{:?}", r.violations);
}

#[test]
fn rejects_cycle() {
    let input = PublishInput {
        base_version: 0,
        summary: "cycle".into(),
        upsert_nodes: vec![task("nd_a", "a/", "a"), task("nd_b", "b/", "b")],
        add_edges: vec![edge("nd_a", "nd_b"), edge("nd_b", "nd_a")],
        remove_nodes: vec![],
    };
    let r = validate_publish(&empty_snap(), &input);
    assert!(r.violations.iter().any(|v| matches!(v, GraphViolation::Cycle { .. })));
}

#[test]
fn rejects_dangling() {
    let input = PublishInput {
        base_version: 0,
        summary: "dangle".into(),
        upsert_nodes: vec![task("nd_a", "a/", "a")],
        add_edges: vec![edge("nd_ghost", "nd_a")],
        remove_nodes: vec![],
    };
    let r = validate_publish(&empty_snap(), &input);
    assert!(r.violations.iter().any(|v| matches!(v, GraphViolation::DanglingDep { .. })));
}

#[test]
fn rejects_write_conflict() {
    let input = PublishInput {
        base_version: 0,
        summary: "wc".into(),
        upsert_nodes: vec![task("nd_a", "src/api/", "a"), task("nd_b", "src/api/user/", "b")],
        add_edges: vec![],
        remove_nodes: vec![],
    };
    let r = validate_publish(&empty_snap(), &input);
    assert!(r.violations.iter().any(|v| matches!(v, GraphViolation::WriteConflict { .. })));
}

#[test]
fn rejects_unknown_validator() {
    let mut t = task("nd_a", "a/", "a");
    t.validators = vec!["not-a-real-validator".into()];
    let input = PublishInput {
        base_version: 0,
        summary: "v".into(),
        upsert_nodes: vec![t],
        add_edges: vec![],
        remove_nodes: vec![],
    };
    let r = validate_publish(&empty_snap(), &input);
    assert!(r.violations.iter().any(|v| matches!(v, GraphViolation::ValidatorUnregistered { .. })));
}

#[test]
fn rejects_duplicate_id() {
    let input = PublishInput {
        base_version: 0,
        summary: "dup".into(),
        upsert_nodes: vec![task("nd_a", "a/", "a"), task("nd_a", "b/", "b")],
        add_edges: vec![],
        remove_nodes: vec![],
    };
    let r = validate_publish(&empty_snap(), &input);
    assert!(r.violations.iter().any(|v| matches!(v, GraphViolation::DuplicateId { .. })));
}

fn existing(kind: &str, scope: &str, attempts: bool) -> ExistingNode {
    ExistingNode {
        kind: kind.into(),
        path: "p".into(),
        parent_id: None,
        write_scope: vec![scope.into()],
        validators: vec![],
        task_state: Some(TaskState::Todo),
        title: "t".into(),
        has_attempt_history: attempts,
        inputs: None,
    }
}

#[test]
fn removals_are_checked_in_order() {
    let snap = GraphSnapshot {
        version: 3,
        nodes: vec![
            ("nd_old".into(), existing("task", "old/", false)),
            ("nd_hist".into(), existing("task", "hist/", true)),
        ],
        edges: vec![("nd_old".into(), "nd_hist".into())],
        registered_validators: builtin_validators(),
    };
    let input = PublishInput {
        base_version: 3,
        summary: "rm".into(),
        upsert_nodes: vec![],
        add_edges: vec![],
        remove_nodes: vec!["nd_old".into(), "nd_old".into(), "nd_hist".into(), "nd_none".into()],
    };
    let r = validate_publish(&snap, &input);
    let kinds: Vec<String> = r.violations.iter().map(|v| format!("{:?}", v)).collect();
    assert_eq!(r.violations.len(), 3, "{:?}", kinds);
    assert!(matches!(&r.violations[0], GraphViolation::UnknownRemove { id } if id == "nd_old"));
    assert!(matches!(&r.violations[1], GraphViolation::TypeInvariant { id, message } if id == "nd_hist" && message == "cannot remove node with attempt history"));
    assert!(matches!(&r.violations[2], GraphViolation::UnknownRemove { id } if id == "nd_none"));
}

#[test]
fn draft_messages_are_exact() {
    let mut bad = task("nd_k", "k/", "k");
    bad.kind = "widget".into();
    bad.title = "".into();
    let mut t = task("nd_t", "", "t");
    t.write_scope = vec![];
    t.title = " \t".into();
    t.inputs = Some(vec!["ar_1".into(), "".into(), "".into()]);
    t.parent_id = Some("nd_gone".into());
    let input = PublishInput {
        base_version: 0,
        summary: "msgs".into(),
        upsert_nodes: vec![bad, t],
        add_edges: vec![],
        remove_nodes: vec![],
    };
    let r = validate_publish(&empty_snap(), &input);
    let got: Vec<String> = r.violations.iter().map(|v| format!("{:?}", v)).collect();
    assert_eq!(
        got,
        vec![
            format!("{:?}", GraphViolation::TypeInvariant { id: "nd_k".into(), message: "unknown kind widget".into() }),
            format!("{:?}", GraphViolation::TypeInvariant { id: "nd_t".into(), message: "title must be non-empty".into() }),
            format!("{:?}", GraphViolation::TypeInvariant { id: "nd_t".into(), message: "task must declare write_scope".into() }),
            format!("{:?}", GraphViolation::MissingInput { id: "nd_t".into(), message: "inputs[1] missing artifact_id".into() }),
            format!("{:?}", GraphViolation::MissingInput { id: "nd_t".into(), message: "inputs[2] missing artifact_id".into() }),
            format!("{:?}", GraphViolation::OrphanParent { id: "nd_t".into(), parent_id: "nd_gone".into() }),
        ]
    );
}

#[test]
fn edges_and_conflicts_are_reported_with_their_data() {
    let input = PublishInput {
        base_version: 0,
        summary: "e".into(),
        upsert_nodes: vec![task("nd_a", "lib/", "a"), task("nd_b", "lib/x/", "b")],
        add_edges: vec![edge("nd_a", "nd_a"), edge("nd_a", "nd_zz")],
        remove_nodes: vec![],
    };
    let r = validate_publish(&empty_snap(), &input);
    let got: Vec<String> = r.violations.iter().map(|v| format!("{:?}", v)).collect();
    assert_eq!(
        got,
        vec![
            format!("{:?}", GraphViolation::SelfEdge { id: "nd_a".into() }),
            format!("{:?}", GraphViolation::DanglingDep { edge: edge("nd_a", "nd_zz") }),
            format!("{:?}", GraphViolation::WriteConflict { nodes: vec!["nd_a".into(), "nd_b".into()], scope: "lib/".into() }),
        ]
    );
}

#[test]
fn cycle_path_is_closed_walk() {
    let input = PublishInput {
        base_version: 0,
        summary: "c".into(),
        upsert_nodes: vec![task("nd_a", "a/", "a"), task("nd_b", "b/", "b"), task("nd_c", "c/", "c")],
        add_edges: vec![edge("nd_a", "nd_b"), edge("nd_b", "nd_c"), edge("nd_c", "nd_a")],
        remove_nodes: vec![],
    };
    let r = validate_publish(&empty_snap(), &input);
    assert_eq!(r.violations.len(), 1);
    match &r.violations[0] {
        GraphViolation::Cycle { path } => {
            assert_eq!(path.len(), 4);
            assert_eq!(path.first(), path.last());
        }
        other => panic!("expected a cycle, got {:?}", other),
    }
}

#[test]
fn short_ids() {
    assert_eq!(short_id("nd_01HXYZABCDEFG"), "01HXYZAB");
    assert_eq!(short_id("abc"), "abc");
    assert_eq!(short_id("a_b_c"), "c");
    assert_eq!(short_id("trailing_"), "");
}

#[test]
fn topo_sort_orders_or_refuses() {
    let edges = vec![("b".to_string(), "c".to_string()), ("a".to_string(), "b".to_string()), ("x".to_string(), "a".to_string())];
    let ids = vec!["c".to_string(), "b".to_string(), "a".to_string()];
    assert_eq!(topo_sort(&edges, &ids), Some(vec!["a".to_string(), "b".to_string(), "c".to_string()]));
    let cyclic = vec![("a".to_string(), "b".to_string()), ("b".to_string(), "a".to_string())];
    assert_eq!(topo_sort(&cyclic, &vec!["a".to_string(), "b".to_string()]), None);
    assert_eq!(topo_sort(&vec![], &vec!["a".to_string(), "a".to_string()]), None);
    assert_eq!(topo_sort(&vec![], &vec![]), Some(vec![]));
}

#[test]
fn ready_after_publish_lists_sorted_ready_tasks() {
    let mut done = existing("task", "d/", false);
    done.task_state = Some(TaskState::Done);
    let mut unset = existing("task", "u/", false);
    unset.task_state = None;
    let nodes = vec![
        ("nd_z".to_string(), existing("task", "z/", false)),
        ("nd_done".to_string(), done),
        ("nd_after".to_string(), existing("task", "a/", false)),
        ("nd_blocked".to_string(), existing("task", "b/", false)),
        ("nd_unset".to_string(), unset),
        ("nd_pkg".to_string(), existing("package", "", false)),
    ];
    let edges = vec![
        ("nd_done".to_string(), "nd_after".to_string()),
        ("nd_z".to_string(), "nd_blocked".to_string()),
        ("nd_pkg".to_string(), "nd_z".to_string()),
    ];
    let r = ready_after_publish(&nodes, &edges);
    assert_eq!(r, vec!["nd_after".to_string(), "nd_unset".to_string(), "nd_z".to_string()]);
}
