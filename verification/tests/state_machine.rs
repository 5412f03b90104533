use sunmao::state_machine::{
    assert_plan_transition, assert_scope_transition, assert_task_transition, plan_transition_allowed,
    scope_transition_allowed, task_transition_allowed, PlanState, ScopeState, TaskState, TransitionError,
};

#[test]
fn happy_path_task_lifecycle() {
    let path = [
        TaskState::Todo,
        TaskState::Ready,
        TaskState::Claimed,
        TaskState::Running,
        TaskState::Review,
        TaskState::Done,
    ];
    for w in path.windows(2) {
        assert_task_transition(w[0], w[1]).unwrap();
    }
}

#[test]
fn illegal_task_transitions_fail() {
    assert!(assert_task_transition(TaskState::Done, TaskState::Ready).is_err());
    assert!(assert_task_transition(TaskState::Todo, TaskState::Done).is_err());
    assert!(assert_task_transition(TaskState::Cancelled, TaskState::Ready).is_err());
    assert!(assert_task_transition(TaskState::Done, TaskState::Todo).is_err());
}

#[test]
fn lease_expire_reopens() {
    assert_task_transition(TaskState::Claimed, TaskState::Ready).unwrap();
    assert_task_transition(TaskState::Running, TaskState::Ready).unwrap();
}

#[test]
fn scope_pause_close_reopen() {
    assert_scope_transition(ScopeState::Active, ScopeState::Paused).unwrap();
    assert_scope_transition(ScopeState::Paused, ScopeState::Closed).unwrap();
    assert_scope_transition(ScopeState::Closed, ScopeState::Active).unwrap();
    assert!(assert_scope_transition(ScopeState::Archived, ScopeState::Paused).is_err());
}

#[test]
fn plan_states() {
    assert_plan_transition(PlanState::Draft, PlanState::Planned).unwrap();
    assert_plan_transition(PlanState::Planned, PlanState::Planning).unwrap();
}

#[test]
fn roundtrip_as_str() {
    for s in TaskState::all() {
        assert_eq!(TaskState::parse(s.as_str()), Some(s));
    }
    for s in ScopeState::all() {
        assert_eq!(ScopeState::parse(s.as_str()), Some(s));
    }
    for s in PlanState::all() {
        assert_eq!(PlanState::parse(s.as_str()), Some(s));
    }
}

#[test]
fn task_transition_table_is_total() {
    for from in TaskState::all() {
        for to in TaskState::all() {
            let ok = task_transition_allowed(from, to);
            let res = assert_task_transition(from, to);
            assert_eq!(ok, res.is_ok());
            if !ok {
                assert_eq!(res, Err(TransitionError::IllegalTask { from, to }));
            }
        }
    }
}

#[test]
fn scope_and_plan_tables_are_total() {
    for from in ScopeState::all() {
        for to in ScopeState::all() {
            let ok = scope_transition_allowed(from, to);
            assert_eq!(ok, assert_scope_transition(from, to).is_ok());
        }
    }
    for from in PlanState::all() {
        for to in PlanState::all() {
            let ok = plan_transition_allowed(from, to);
            assert_eq!(ok, assert_plan_transition(from, to).is_ok());
        }
    }
}

#[test]
fn names_and_unknown_names() {
    assert_eq!(TaskState::Cancelled.as_str(), "cancelled");
    assert_eq!(ScopeState::Archived.as_str(), "archived");
    assert_eq!(PlanState::Planning.as_str(), "planning");
    assert_eq!(TaskState::parse("Done"), None);
    assert_eq!(TaskState::parse(""), None);
    assert_eq!(ScopeState::parse("open"), None);
    assert_eq!(PlanState::parse("planned "), None);
    assert_eq!(TaskState::all().len(), 8);
    assert_eq!(ScopeState::all().len(), 4);
    assert_eq!(PlanState::all().len(), 3);
}

#[test]
fn terminal_and_lease_predicates() {
    assert!(TaskState::Done.is_terminal());
    assert!(TaskState::Failed.is_terminal());
    assert!(TaskState::Cancelled.is_terminal());
    assert!(!TaskState::Review.is_terminal());
    assert!(TaskState::Claimed.is_active_lease());
    assert!(TaskState::Running.is_active_lease());
    assert!(TaskState::Review.is_active_lease());
    assert!(!TaskState::Ready.is_active_lease());
    assert!(!ScopeState::Active.is_restricting());
    assert!(ScopeState::Paused.is_restricting());
    assert!(ScopeState::Closed.is_restricting());
    assert!(ScopeState::Archived.is_restricting());
}

#[test]
fn terminal_states_stay_put() {
    for to in TaskState::all() {
        assert_eq!(task_transition_allowed(TaskState::Done, to), to == TaskState::Done);
        assert_eq!(task_transition_allowed(TaskState::Cancelled, to), to == TaskState::Cancelled);
    }
    assert!(task_transition_allowed(TaskState::Failed, TaskState::Todo));
    assert!(!task_transition_allowed(TaskState::Failed, TaskState::Done));
    assert!(plan_transition_allowed(PlanState::Planning, PlanState::Planning));
}
