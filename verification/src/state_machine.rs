//! Task, package-scope and package-plan state machines.
use vstd::prelude::*;
use crate::text::str_eq;

verus! {

/// Task execution state.
#[derive(Debug, Clone, Copy, PartialEq, Eq, Hash, Structural)]
pub enum TaskState {
    Todo,
    Ready,
    Claimed,
    Running,
    Review,
    Done,
    Failed,
    Cancelled,
}

/// Package scope state; changed by humans only.
#[derive(Debug, Clone, Copy, PartialEq, Eq, Hash, Structural)]
pub enum ScopeState {
    Active,
    Paused,
    Closed,
    Archived,
}

/// Package plan state; written by the planner.
#[derive(Debug, Clone, Copy, PartialEq, Eq, Hash, Structural)]
pub enum PlanState {
    Draft,
    Planning,
    Planned,
}

/// A refused transition, with its endpoints.
#[derive(Debug, Clone, Copy, PartialEq, Eq, Structural)]
pub enum TransitionError {
    IllegalTask { from: TaskState, to: TaskState },
    IllegalScope { from: ScopeState, to: ScopeState },
    IllegalPlan { from: PlanState, to: PlanState },
}

/// Which of the three machines a transition belongs to.
#[derive(Debug, Clone, Copy, PartialEq, Eq, Structural)]
pub enum TransitionKind {
    Task,
    Scope,
    Plan,
}

/// The storage name of a task state.
pub open spec fn task_state_name(s: TaskState) -> Seq<char> {
    match s {
        TaskState::Todo => "todo"@,
        TaskState::Ready => "ready"@,
        TaskState::Claimed => "claimed"@,
        TaskState::Running => "running"@,
        TaskState::Review => "review"@,
        TaskState::Done => "done"@,
        TaskState::Failed => "failed"@,
        TaskState::Cancelled => "cancelled"@,
    }
}

/// The task state whose storage name is `s`, if any.
pub open spec fn parse_task_state(s: Seq<char>) -> Option<TaskState> {
    if s == "todo"@ {
        Some(TaskState::Todo)
    } else if s == "ready"@ {
        Some(TaskState::Ready)
    } else if s == "claimed"@ {
        Some(TaskState::Claimed)
    } else if s == "running"@ {
        Some(TaskState::Running)
    } else if s == "review"@ {
        Some(TaskState::Review)
    } else if s == "done"@ {
        Some(TaskState::Done)
    } else if s == "failed"@ {
        Some(TaskState::Failed)
    } else if s == "cancelled"@ {
        Some(TaskState::Cancelled)
    } else {
        None
    }
}

/// The storage name of a scope state.
pub open spec fn scope_state_name(s: ScopeState) -> Seq<char> {
    match s {
        ScopeState::Active => "active"@,
        ScopeState::Paused => "paused"@,
        ScopeState::Closed => "closed"@,
        ScopeState::Archived => "archived"@,
    }
}

/// The scope state whose storage name is `s`, if any.
pub open spec fn parse_scope_state(s: Seq<char>) -> Option<ScopeState> {
    if s == "active"@ {
        Some(ScopeState::Active)
    } else if s == "paused"@ {
        Some(ScopeState::Paused)
    } else if s == "closed"@ {
        Some(ScopeState::Closed)
    } else if s == "archived"@ {
        Some(ScopeState::Archived)
    } else {
        None
    }
}

/// The storage name of a plan state.
pub open spec fn plan_state_name(s: PlanState) -> Seq<char> {
    match s {
        PlanState::Draft => "draft"@,
        PlanState::Planning => "planning"@,
        PlanState::Planned => "planned"@,
    }
}

/// The plan state whose storage name is `s`, if any.
pub open spec fn parse_plan_state(s: Seq<char>) -> Option<PlanState> {
    if s == "draft"@ {
        Some(PlanState::Draft)
    } else if s == "planning"@ {
        Some(PlanState::Planning)
    } else if s == "planned"@ {
        Some(PlanState::Planned)
    } else {
        None
    }
}

/// Done, failed and cancelled are terminal.
pub open spec fn task_is_terminal(s: TaskState) -> bool {
    s == TaskState::Done || s == TaskState::Failed || s == TaskState::Cancelled
}

/// Claimed, running and review hold a lease.
pub open spec fn task_holds_lease(s: TaskState) -> bool {
    s == TaskState::Claimed || s == TaskState::Running || s == TaskState::Review
}

/// Every scope state but active restricts the tasks below the package.
pub open spec fn scope_restricts(s: ScopeState) -> bool {
    s != ScopeState::Active
}

/// The legal task transitions (a state may always stay where it is).
///
/// ```text
/// todo → ready → claimed → running → review → done
///                  │          │         │
///                  └──────────┴─────────┴→ ready (reopen / lease_expired)
///                  └──────────┴─────────┴→ failed (max attempts)
///                  └──────────┴─────────┴→ cancelled
/// todo → cancelled, ready → todo (scope block), claimed → done (submit shortcut)
/// failed → todo | ready | cancelled (replan)
/// ```
pub open spec fn task_step(from: TaskState, to: TaskState) -> bool {
    from == to || match (from, to) {
        (TaskState::Todo, TaskState::Ready) => true,
        (TaskState::Todo, TaskState::Cancelled) => true,
        (TaskState::Ready, TaskState::Claimed) => true,
        (TaskState::Ready, TaskState::Todo) => true,
        (TaskState::Ready, TaskState::Cancelled) => true,
        (TaskState::Claimed, TaskState::Running) => true,
        (TaskState::Claimed, TaskState::Review) => true,
        (TaskState::Claimed, TaskState::Ready) => true,
        (TaskState::Claimed, TaskState::Failed) => true,
        (TaskState::Claimed, TaskState::Cancelled) => true,
        (TaskState::Claimed, TaskState::Done) => true,
        (TaskState::Running, TaskState::Review) => true,
        (TaskState::Running, TaskState::Done) => true,
        (TaskState::Running, TaskState::Ready) => true,
        (TaskState::Running, TaskState::Failed) => true,
        (TaskState::Running, TaskState::Cancelled) => true,
        (TaskState::Review, TaskState::Done) => true,
        (TaskState::Review, TaskState::Ready) => true,
        (TaskState::Review, TaskState::Failed) => true,
        (TaskState::Review, TaskState::Cancelled) => true,
        (TaskState::Failed, TaskState::Todo) => true,
        (TaskState::Failed, TaskState::Ready) => true,
        (TaskState::Failed, TaskState::Cancelled) => true,
        _ => false,
    }
}

/// The legal scope transitions (a state may always stay where it is).
pub open spec fn scope_step(from: ScopeState, to: ScopeState) -> bool {
    from == to || match (from, to) {
        (ScopeState::Active, ScopeState::Paused) => true,
        (ScopeState::Active, ScopeState::Closed) => true,
        (ScopeState::Active, ScopeState::Archived) => true,
        (ScopeState::Paused, ScopeState::Active) => true,
        (ScopeState::Paused, ScopeState::Closed) => true,
        (ScopeState::Paused, ScopeState::Archived) => true,
        (ScopeState::Closed, ScopeState::Active) => true,
        (ScopeState::Closed, ScopeState::Archived) => true,
        (ScopeState::Archived, ScopeState::Active) => true,
        _ => false,
    }
}

/// The legal plan transitions (a state may always stay where it is).
pub open spec fn plan_step(from: PlanState, to: PlanState) -> bool {
    from == to || match (from, to) {
        (PlanState::Draft, PlanState::Planning) => true,
        (PlanState::Draft, PlanState::Planned) => true,
        (PlanState::Planning, PlanState::Planned) => true,
        (PlanState::Planning, PlanState::Draft) => true,
        (PlanState::Planned, PlanState::Planning) => true,
        (PlanState::Planned, PlanState::Draft) => true,
        _ => false,
    }
}

impl TaskState {
    /// The storage name, e.g. `"todo"`.
    pub fn as_str(self) -> (r: &'static str)
        ensures
            r@ == task_state_name(self),
    {
        match self {
            TaskState::Todo => "todo",
            TaskState::Ready => "ready",
            TaskState::Claimed => "claimed",
            TaskState::Running => "running",
            TaskState::Review => "review",
            TaskState::Done => "done",
            TaskState::Failed => "failed",
            TaskState::Cancelled => "cancelled",
        }
    }

    /// Parses a storage name; anything else is `None`.
    pub fn parse(s: &str) -> (r: Option<TaskState>)
        ensures
            r == parse_task_state(s@),
    {
        if str_eq(s, "todo") {
            Some(TaskState::Todo)
        } else if str_eq(s, "ready") {
            Some(TaskState::Ready)
        } else if str_eq(s, "claimed") {
            Some(TaskState::Claimed)
        } else if str_eq(s, "running") {
            Some(TaskState::Running)
        } else if str_eq(s, "review") {
            Some(TaskState::Review)
        } else if str_eq(s, "done") {
            Some(TaskState::Done)
        } else if str_eq(s, "failed") {
            Some(TaskState::Failed)
        } else if str_eq(s, "cancelled") {
            Some(TaskState::Cancelled)
        } else {
            None
        }
    }

    /// Every task state, once each, in lifecycle order.
    pub fn all() -> (r: Vec<TaskState>)
        ensures
            r@ == seq![
                TaskState::Todo,
                TaskState::Ready,
                TaskState::Claimed,
                TaskState::Running,
                TaskState::Review,
                TaskState::Done,
                TaskState::Failed,
                TaskState::Cancelled,
            ],
    {
        let r = vec![
            TaskState::Todo,
            TaskState::Ready,
            TaskState::Claimed,
            TaskState::Running,
            TaskState::Review,
            TaskState::Done,
            TaskState::Failed,
            TaskState::Cancelled,
        ];
        assert(r@ =~= seq![
            TaskState::Todo,
            TaskState::Ready,
            TaskState::Claimed,
            TaskState::Running,
            TaskState::Review,
            TaskState::Done,
            TaskState::Failed,
            TaskState::Cancelled,
        ]);
        r
    }

    /// Done, failed or cancelled.
    pub fn is_terminal(self) -> (r: bool)
        ensures
            r == task_is_terminal(self),
    {
        matches!(self, TaskState::Done | TaskState::Failed | TaskState::Cancelled)
    }

    /// Claimed, running or review: a worker holds the lease.
    pub fn is_active_lease(self) -> (r: bool)
        ensures
            r == task_holds_lease(self),
    {
        matches!(self, TaskState::Claimed | TaskState::Running | TaskState::Review)
    }
}

impl ScopeState {
    /// The storage name, e.g. `"active"`.
    pub fn as_str(self) -> (r: &'static str)
        ensures
            r@ == scope_state_name(self),
    {
        match self {
            ScopeState::Active => "active",
            ScopeState::Paused => "paused",
            ScopeState::Closed => "closed",
            ScopeState::Archived => "archived",
        }
    }

    /// Parses a storage name; anything else is `None`.
    pub fn parse(s: &str) -> (r: Option<ScopeState>)
        ensures
            r == parse_scope_state(s@),
    {
        if str_eq(s, "active") {
            Some(ScopeState::Active)
        } else if str_eq(s, "paused") {
            Some(ScopeState::Paused)
        } else if str_eq(s, "closed") {
            Some(ScopeState::Closed)
        } else if str_eq(s, "archived") {
            Some(ScopeState::Archived)
        } else {
            None
        }
    }

    /// Every scope state, once each.
    pub fn all() -> (r: Vec<ScopeState>)
        ensures
            r@ == seq![ScopeState::Active, ScopeState::Paused, ScopeState::Closed, ScopeState::Archived],
    {
        let r = vec![ScopeState::Active, ScopeState::Paused, ScopeState::Closed, ScopeState::Archived];
        assert(r@ =~= seq![ScopeState::Active, ScopeState::Paused, ScopeState::Closed, ScopeState::Archived]);
        r
    }

    /// Any state but active blocks the tasks under the package.
    pub fn is_restricting(self) -> (r: bool)
        ensures
            r == scope_restricts(self),
    {
        !matches!(self, ScopeState::Active)
    }
}

impl PlanState {
    /// The storage name, e.g. `"draft"`.
    pub fn as_str(self) -> (r: &'static str)
        ensures
            r@ == plan_state_name(self),
    {
        match self {
            PlanState::Draft => "draft",
            PlanState::Planning => "planning",
            PlanState::Planned => "planned",
        }
    }

    /// Parses a storage name; anything else is `None`.
    pub fn parse(s: &str) -> (r: Option<PlanState>)
        ensures
            r == parse_plan_state(s@),
    {
        if str_eq(s, "draft") {
            Some(PlanState::Draft)
        } else if str_eq(s, "planning") {
            Some(PlanState::Planning)
        } else if str_eq(s, "planned") {
            Some(PlanState::Planned)
        } else {
            None
        }
    }

    /// Every plan state, once each.
    pub fn all() -> (r: Vec<PlanState>)
        ensures
            r@ == seq![PlanState::Draft, PlanState::Planning, PlanState::Planned],
    {
        let r = vec![PlanState::Draft, PlanState::Planning, PlanState::Planned];
        assert(r@ =~= seq![PlanState::Draft, PlanState::Planning, PlanState::Planned]);
        r
    }
}

/// Whether a task may move from `from` to `to`.
pub fn task_transition_allowed(from: TaskState, to: TaskState) -> (r: bool)
    ensures
        r == task_step(from, to),
{
    if from == to {
        return true;
    }
    matches!(
        (from, to),
        (TaskState::Todo, TaskState::Ready)
            | (TaskState::Todo, TaskState::Cancelled)
            | (TaskState::Ready, TaskState::Claimed)
            | (TaskState::Ready, TaskState::Todo)
            | (TaskState::Ready, TaskState::Cancelled)
            | (TaskState::Claimed, TaskState::Running)
            | (TaskState::Claimed, TaskState::Review)
            | (TaskState::Claimed, TaskState::Ready)
            | (TaskState::Claimed, TaskState::Failed)
            | (TaskState::Claimed, TaskState::Cancelled)
            | (TaskState::Claimed, TaskState::Done)
            | (TaskState::Running, TaskState::Review)
            | (TaskState::Running, TaskState::Done)
            | (TaskState::Running, TaskState::Ready)
            | (TaskState::Running, TaskState::Failed)
            | (TaskState::Running, TaskState::Cancelled)
            | (TaskState::Review, TaskState::Done)
            | (TaskState::Review, TaskState::Ready)
            | (TaskState::Review, TaskState::Failed)
            | (TaskState::Review, TaskState::Cancelled)
            | (TaskState::Failed, TaskState::Todo)
            | (TaskState::Failed, TaskState::Ready)
            | (TaskState::Failed, TaskState::Cancelled)
    )
}

/// Whether a package scope may move from `from` to `to`.
pub fn scope_transition_allowed(from: ScopeState, to: ScopeState) -> (r: bool)
    ensures
        r == scope_step(from, to),
{
    if from == to {
        return true;
    }
    matches!(
        (from, to),
        (ScopeState::Active, ScopeState::Paused)
            | (ScopeState::Active, ScopeState::Closed)
            | (ScopeState::Active, ScopeState::Archived)
            | (ScopeState::Paused, ScopeState::Active)
            | (ScopeState::Paused, ScopeState::Closed)
            | (ScopeState::Paused, ScopeState::Archived)
            | (ScopeState::Closed, ScopeState::Active)
            | (ScopeState::Closed, ScopeState::Archived)
            | (ScopeState::Archived, ScopeState::Active)
    )
}

/// Whether a package plan may move from `from` to `to`.
pub fn plan_transition_allowed(from: PlanState, to: PlanState) -> (r: bool)
    ensures
        r == plan_step(from, to),
{
    if from == to {
        return true;
    }
    matches!(
        (from, to),
        (PlanState::Draft, PlanState::Planning)
            | (PlanState::Draft, PlanState::Planned)
            | (PlanState::Planning, PlanState::Planned)
            | (PlanState::Planning, PlanState::Draft)
            | (PlanState::Planned, PlanState::Planning)
            | (PlanState::Planned, PlanState::Draft)
    )
}

/// `Ok` exactly when the task transition is legal; otherwise the error names both ends.
pub fn assert_task_transition(from: TaskState, to: TaskState) -> (r: Result<(), TransitionError>)
    ensures
        r is Ok <==> task_step(from, to),
        r is Err ==> r == Err::<(), TransitionError>(TransitionError::IllegalTask { from, to }),
{
    if task_transition_allowed(from, to) {
        Ok(())
    } else {
        Err(TransitionError::IllegalTask { from, to })
    }
}

/// `Ok` exactly when the scope transition is legal; otherwise the error names both ends.
pub fn assert_scope_transition(from: ScopeState, to: ScopeState) -> (r: Result<(), TransitionError>)
    ensures
        r is Ok <==> scope_step(from, to),
        r is Err ==> r == Err::<(), TransitionError>(TransitionError::IllegalScope { from, to }),
{
    if scope_transition_allowed(from, to) {
        Ok(())
    } else {
        Err(TransitionError::IllegalScope { from, to })
    }
}

/// `Ok` exactly when the plan transition is legal; otherwise the error names both ends.
pub fn assert_plan_transition(from: PlanState, to: PlanState) -> (r: Result<(), TransitionError>)
    ensures
        r is Ok <==> plan_step(from, to),
        r is Err ==> r == Err::<(), TransitionError>(TransitionError::IllegalPlan { from, to }),
{
    if plan_transition_allowed(from, to) {
        Ok(())
    } else {
        Err(TransitionError::IllegalPlan { from, to })
    }
}

/// Parsing the storage name of any state gives that state back, for all three machines.
pub proof fn lemma_names_roundtrip(t: TaskState, s: ScopeState, p: PlanState)
    ensures
        parse_task_state(task_state_name(t)) == Some(t),
        parse_scope_state(scope_state_name(s)) == Some(s),
        parse_plan_state(plan_state_name(p)) == Some(p),
{
    reveal_strlit("todo");
    assert("todo"@.len() == 4 && "todo"@[0] == 't' && "todo"@[3] == 'o');
    reveal_strlit("ready");
    assert("ready"@.len() == 5 && "ready"@[0] == 'r' && "ready"@[4] == 'y');
    reveal_strlit("claimed");
    assert("claimed"@.len() == 7 && "claimed"@[0] == 'c' && "claimed"@[6] == 'd');
    reveal_strlit("running");
    assert("running"@.len() == 7 && "running"@[0] == 'r' && "running"@[6] == 'g');
    reveal_strlit("review");
    assert("review"@.len() == 6 && "review"@[0] == 'r' && "review"@[5] == 'w');
    reveal_strlit("done");
    assert("done"@.len() == 4 && "done"@[0] == 'd' && "done"@[3] == 'e');
    reveal_strlit("failed");
    assert("failed"@.len() == 6 && "failed"@[0] == 'f' && "failed"@[5] == 'd');
    reveal_strlit("cancelled");
    assert("cancelled"@.len() == 9 && "cancelled"@[0] == 'c' && "cancelled"@[8] == 'd');
    reveal_strlit("active");
    assert("active"@.len() == 6 && "active"@[0] == 'a' && "active"@[5] == 'e');
    reveal_strlit("paused");
    assert("paused"@.len() == 6 && "paused"@[0] == 'p' && "paused"@[5] == 'd');
    reveal_strlit("closed");
    assert("closed"@.len() == 6 && "closed"@[0] == 'c' && "closed"@[5] == 'd');
    reveal_strlit("archived");
    assert("archived"@.len() == 8 && "archived"@[0] == 'a' && "archived"@[7] == 'd');
    reveal_strlit("draft");
    assert("draft"@.len() == 5 && "draft"@[0] == 'd' && "draft"@[4] == 't');
    reveal_strlit("planning");
    assert("planning"@.len() == 8 && "planning"@[0] == 'p' && "planning"@[7] == 'g');
    reveal_strlit("planned");
    assert("planned"@.len() == 7 && "planned"@[0] == 'p' && "planned"@[6] == 'd');
}

/// Distinct task states have distinct storage names.
pub proof fn lemma_task_names_distinct(a: TaskState, b: TaskState)
    ensures
        task_state_name(a) == task_state_name(b) ==> a == b,
{
    lemma_names_roundtrip(a, ScopeState::Active, PlanState::Draft);
    lemma_names_roundtrip(b, ScopeState::Active, PlanState::Draft);
}

/// Staying in the same state is always allowed, in all three machines.
pub proof fn lemma_transitions_reflexive(t: TaskState, s: ScopeState, p: PlanState)
    ensures
        task_step(t, t),
        scope_step(s, s),
        plan_step(p, p),
{
}

/// A done or cancelled task never leaves its state; a failed task can only be
/// replanned (back to todo or ready) or cancelled.
pub proof fn lemma_terminal_states_closed(to: TaskState)
    ensures
        task_step(TaskState::Done, to) ==> to == TaskState::Done,
        task_step(TaskState::Cancelled, to) ==> to == TaskState::Cancelled,
        task_step(TaskState::Failed, to) ==> (to == TaskState::Failed || to == TaskState::Todo
            || to == TaskState::Ready || to == TaskState::Cancelled),
{
}

/// A task can only reach done from a leased state (or by staying done).
pub proof fn lemma_done_only_from_lease(from: TaskState)
    ensures
        task_step(from, TaskState::Done) ==> (task_holds_lease(from) || from == TaskState::Done),
{
}

/// Every leased state can be reopened to ready, failed, or cancelled.
pub proof fn lemma_lease_exits(s: TaskState)
    requires
        task_holds_lease(s),
    ensures
        task_step(s, TaskState::Ready),
        task_step(s, TaskState::Failed),
        task_step(s, TaskState::Cancelled),
        !task_is_terminal(s),
{
}

/// An archived package can only be restored to active (or stay archived).
pub proof fn lemma_archived_only_restores(to: ScopeState)
    ensures
        scope_step(ScopeState::Archived, to) ==> (to == ScopeState::Archived || to
            == ScopeState::Active),
{
}

/// Where each task state can be entered from: a task is claimed only out of
/// ready, runs only after a claim, goes to review only from a claim or a run,
/// and goes back to todo only from ready or failed; out of todo it can only
/// become ready or be cancelled.
pub proof fn lemma_task_entry_points(from: TaskState, to: TaskState)
    ensures
        task_step(from, TaskState::Claimed) ==> (from == TaskState::Ready || from == TaskState::Claimed),
        task_step(from, TaskState::Running) ==> (from == TaskState::Claimed || from == TaskState::Running),
        task_step(from, TaskState::Review) ==> (from == TaskState::Claimed || from == TaskState::Running
            || from == TaskState::Review),
        task_step(from, TaskState::Todo) ==> (from == TaskState::Todo || from == TaskState::Ready || from
            == TaskState::Failed),
        task_step(TaskState::Todo, to) ==> (to == TaskState::Todo || to == TaskState::Ready || to
            == TaskState::Cancelled),
{
}

/// A lease is only ever taken by claiming a ready task: every legal step from a
/// state without a lease into one with a lease is ready to claimed.
pub proof fn lemma_lease_taken_only_by_claim(from: TaskState, to: TaskState)
    ensures
        task_step(from, to) && !task_holds_lease(from) && task_holds_lease(to) ==> (from == TaskState::Ready
            && to == TaskState::Claimed),
{
}

/// Every arrow of the lifecycle is a legal step: todo, ready, claimed, running,
/// review, done in turn; reopening a leased task to ready; cancelling before a
/// claim; blocking a ready task back to todo; submitting straight from a claim;
/// and replanning a failed task.
pub proof fn lemma_lifecycle_steps()
    ensures
        task_step(TaskState::Todo, TaskState::Ready),
        task_step(TaskState::Ready, TaskState::Claimed),
        task_step(TaskState::Claimed, TaskState::Running),
        task_step(TaskState::Running, TaskState::Review),
        task_step(TaskState::Review, TaskState::Done),
        task_step(TaskState::Claimed, TaskState::Ready),
        task_step(TaskState::Running, TaskState::Ready),
        task_step(TaskState::Review, TaskState::Ready),
        task_step(TaskState::Todo, TaskState::Cancelled),
        task_step(TaskState::Ready, TaskState::Cancelled),
        task_step(TaskState::Ready, TaskState::Todo),
        task_step(TaskState::Claimed, TaskState::Done),
        task_step(TaskState::Failed, TaskState::Todo),
        task_step(TaskState::Failed, TaskState::Ready),
        task_step(TaskState::Failed, TaskState::Cancelled),
{
}

} // verus!
