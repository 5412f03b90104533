//! Ready derivation: a task is ready when it is todo (or already ready), every
//! upstream task is done, and no ancestor package restricts it.
use vstd::prelude::*;
use crate::state_machine::{ScopeState, TaskState, scope_restricts};
use crate::text::{chars_of, chars_push, chars_starts_with, chars_eq, str_eq};

verus! {

/// What the ready predicate reads of one node.
#[derive(Debug, Clone)]
pub struct ReadyInput {
    pub node_id: String,
    /// `"task"` or `"package"`.
    pub kind: String,
    pub task_state: Option<TaskState>,
    pub path: String,
    /// States of the upstream tasks, keyed by the upstream id.
    pub upstream_task_states: Vec<(String, TaskState)>,
    /// Ancestor packages: (path, scope state).
    pub ancestor_scopes: Vec<(String, ScopeState)>,
}

/// `path` lies below `anc` in the dotted path hierarchy.
pub open spec fn dotted_under(path: Seq<char>, anc: Seq<char>) -> bool {
    anc.push('.').is_prefix_of(path)
}

/// `path` lies below `anc` read as a directory.
pub open spec fn slashed_under(path: Seq<char>, anc: Seq<char>) -> bool {
    anc.push('/').is_prefix_of(path)
}

/// `child` is a strict dotted descendant of `ancestor`.
pub open spec fn descends(child: Seq<char>, ancestor: Seq<char>) -> bool {
    child != ancestor && dotted_under(child, ancestor)
}

/// The task state admits ready: todo, or already marked ready.
pub open spec fn claimable_state(ts: Option<TaskState>) -> bool {
    ts == Some(TaskState::Todo) || ts == Some(TaskState::Ready)
}

/// The ready rule for one node.
pub open spec fn ready_rule(input: ReadyInput) -> bool {
    &&& input.kind@ == "task"@
    &&& claimable_state(input.task_state)
    &&& forall|i: int|
        0 <= i < input.upstream_task_states@.len() ==> (#[trigger] input.upstream_task_states@[i]).1
            == TaskState::Done
    &&& forall|i: int|
        0 <= i < input.ancestor_scopes@.len() ==> ({
            let a = #[trigger] input.ancestor_scopes@[i];
            (dotted_under(input.path@, a.0@) || slashed_under(input.path@, a.0@)) ==> !scope_restricts(a.1)
        })
}

/// Whether `child` is a strict dotted descendant of `ancestor`.
fn is_path_descendant(child: &Vec<char>, ancestor: &Vec<char>) -> (r: bool)
    ensures
        r == descends(child@, ancestor@),
{
    if chars_eq(child, ancestor) {
        return false;
    }
    let dotted = chars_push(ancestor, '.');
    chars_starts_with(child, &dotted)
}

/// The ready predicate for a single node.
pub fn compute_ready(input: &ReadyInput) -> (r: bool)
    ensures
        r == ready_rule(*input),
{
    if !str_eq(input.kind.as_str(), "task") {
        return false;
    }
    let ts = match input.task_state {
        Some(ts) => ts,
        None => {
            return false;
        },
    };
    if !matches!(ts, TaskState::Todo | TaskState::Ready) {
        return false;
    }
    let mut i: usize = 0;
    while i < input.upstream_task_states.len()
        invariant
            i <= input.upstream_task_states@.len(),
            forall|k: int| 0 <= k < i ==> (#[trigger] input.upstream_task_states@[k]).1 == TaskState::Done,
        decreases input.upstream_task_states.len() - i,
    {
        if input.upstream_task_states[i].1 != TaskState::Done {
            assert(input.upstream_task_states@[i as int].1 != TaskState::Done);
            return false;
        }
        i = i + 1;
    }
    let path = chars_of(input.path.as_str());
    let mut j: usize = 0;
    while j < input.ancestor_scopes.len()
        invariant
            j <= input.ancestor_scopes@.len(),
            path@ == input.path@,
            forall|k: int|
                0 <= k < j ==> ({
                    let a = #[trigger] input.ancestor_scopes@[k];
                    (dotted_under(input.path@, a.0@) || slashed_under(input.path@, a.0@)) ==> !scope_restricts(a.1)
                }),
        decreases input.ancestor_scopes.len() - j,
    {
        let anc = chars_of(input.ancestor_scopes[j].0.as_str());
        let scope = input.ancestor_scopes[j].1;
        let dotted = chars_push(&anc, '.');
        let slashed = chars_push(&anc, '/');
        if chars_starts_with(&path, &dotted) || chars_starts_with(&path, &slashed) {
            if scope.is_restricting() {
                assert(input.ancestor_scopes@[j as int].1 == scope);
                return false;
            }
        } else if !chars_eq(&path, &anc) && is_path_descendant(&path, &anc) && scope.is_restricting() {
            return false;
        }
        j = j + 1;
    }
    true
}

/// One node of a full snapshot: (id, kind, task state, path).
pub type NodeRecord = (String, String, Option<TaskState>, String);

/// `nodes[j]` is a task whose id is `id`.
pub open spec fn task_with_id(node: NodeRecord, id: Seq<char>) -> bool {
    node.0@ == id && node.1@ == "task"@
}

/// The first task node with the given id holds a state other than done:
/// the edge from it blocks its downstream task.
pub open spec fn upstream_blocks(nodes: Seq<NodeRecord>, from: Seq<char>) -> bool {
    exists|j: int|
        0 <= j < nodes.len() && task_with_id(#[trigger] nodes[j], from) && (forall|k: int|
            0 <= k < j ==> !task_with_id(#[trigger] nodes[k], from)) && nodes[j].2.is_some()
            && nodes[j].2 != Some(TaskState::Done)
}

/// The ready rule for node `n` of a full snapshot: a todo or ready task, no
/// incoming edge from a task that is not done (an edge counts through the
/// first task node with its source id), and no restricting package whose
/// path is a dotted ancestor of the node's path.
pub open spec fn snapshot_ready(
    nodes: Seq<NodeRecord>,
    edges: Seq<(String, String)>,
    packages: Seq<(String, String, ScopeState)>,
    n: NodeRecord,
) -> bool {
    &&& n.1@ == "task"@
    &&& claimable_state(n.2)
    &&& forall|e: int|
        0 <= e < edges.len() && (#[trigger] edges[e]).1@ == n.0@ ==> !upstream_blocks(nodes, edges[e].0@)
    &&& forall|p: int|
        0 <= p < packages.len() && dotted_under(n.3@, (#[trigger] packages[p]).1@) ==> !scope_restricts(packages[p].2)
}

/// The first task node with id `from`, with its state.
fn find_upstream(nodes: &[NodeRecord], from: &Vec<char>) -> (r: Option<TaskState>)
    ensures
        r is Some && r->0 != TaskState::Done <==> upstream_blocks(nodes@, from@),
{
    let mut j: usize = 0;
    while j < nodes.len()
        invariant
            j <= nodes@.len(),
            forall|k: int| 0 <= k < j ==> !task_with_id(#[trigger] nodes@[k], from@),
        decreases nodes.len() - j,
    {
        let nid = chars_of(nodes[j].0.as_str());
        if chars_eq(&nid, from) && str_eq(nodes[j].1.as_str(), "task") {
            assert(task_with_id(nodes@[j as int], from@));
            let r = nodes[j].2;
            proof {
                if upstream_blocks(nodes@, from@) {
                    let w = choose|w: int|
                        0 <= w < nodes@.len() && task_with_id(#[trigger] nodes@[w], from@) && (forall|k: int|
                            0 <= k < w ==> !task_with_id(#[trigger] nodes@[k], from@)) && nodes@[w].2.is_some()
                            && nodes@[w].2 != Some(TaskState::Done);
                    if w < j {
                    } else if w > j {
                        assert(!task_with_id(nodes@[j as int], from@));
                    }
                }
            }
            return r;
        }
        j = j + 1;
    }
    None
}

/// Ready for every node of a snapshot, in node order.
pub fn compute_all_ready(
    nodes: &[NodeRecord],
    edges: &[(String, String)],
    packages: &[(String, String, ScopeState)],
) -> (out: Vec<(String, bool)>)
    ensures
        out@.len() == nodes@.len(),
        forall|i: int|
            0 <= i < nodes@.len() ==> (#[trigger] out@[i]).0@ == nodes@[i].0@ && out@[i].1
                == snapshot_ready(nodes@, edges@, packages@, nodes@[i]),
{
    let mut out: Vec<(String, bool)> = Vec::new();
    let mut i: usize = 0;
    while i < nodes.len()
        invariant
            i <= nodes@.len(),
            out@.len() == i,
            forall|k: int|
                0 <= k < i ==> (#[trigger] out@[k]).0@ == nodes@[k].0@ && out@[k].1
                    == snapshot_ready(nodes@, edges@, packages@, nodes@[k]),
        decreases nodes.len() - i,
    {
        let id = chars_of(nodes[i].0.as_str());
        let path = chars_of(nodes[i].3.as_str());
        let mut ready = str_eq(nodes[i].1.as_str(), "task")
            && matches!(nodes[i].2, Some(TaskState::Todo) | Some(TaskState::Ready));
        let mut e: usize = 0;
        while ready && e < edges.len()
            invariant
                i < nodes@.len(),
                e <= edges@.len(),
                id@ == nodes@[i as int].0@,
                ready ==> forall|x: int|
                    0 <= x < e && (#[trigger] edges@[x]).1@ == id@ ==> !upstream_blocks(nodes@, edges@[x].0@),
                !ready ==> !snapshot_ready(nodes@, edges@, packages@, nodes@[i as int]),
                ready ==> nodes@[i as int].1@ == "task"@ && claimable_state(nodes@[i as int].2),
            decreases edges.len() - e,
        {
            let to = chars_of(edges[e].1.as_str());
            if chars_eq(&to, &id) {
                let from = chars_of(edges[e].0.as_str());
                match find_upstream(nodes, &from) {
                    Some(s) => {
                        if s != TaskState::Done {
                            ready = false;
                        }
                    },
                    None => {},
                }
            }
            e = e + 1;
        }
        let mut p: usize = 0;
        while ready && p < packages.len()
            invariant
                i < nodes@.len(),
                p <= packages@.len(),
                path@ == nodes@[i as int].3@,
                ready ==> forall|x: int|
                    0 <= x < p && dotted_under(path@, (#[trigger] packages@[x]).1@) ==> !scope_restricts(packages@[x].2),
                !ready ==> !snapshot_ready(nodes@, edges@, packages@, nodes@[i as int]),
                ready ==> nodes@[i as int].1@ == "task"@ && claimable_state(nodes@[i as int].2),
                ready ==> forall|x: int|
                    0 <= x < edges@.len() && (#[trigger] edges@[x]).1@ == nodes@[i as int].0@ ==> !upstream_blocks(nodes@, edges@[x].0@),
            decreases packages.len() - p,
        {
            let ppath = chars_of(packages[p].1.as_str());
            let dotted = chars_push(&ppath, '.');
            if chars_starts_with(&path, &dotted) && packages[p].2.is_restricting() {
                ready = false;
            }
            p = p + 1;
        }
        let nid = nodes[i].0.clone();
        out.push((nid, ready));
        i = i + 1;
    }
    out
}

/// A task that is not todo or ready is never ready, whatever its neighbours.
pub proof fn lemma_ready_needs_todo(input: ReadyInput)
    requires
        !claimable_state(input.task_state),
    ensures
        !ready_rule(input),
{
}

/// One upstream task that is not done blocks readiness.
pub proof fn lemma_upstream_blocks(input: ReadyInput, k: int)
    requires
        0 <= k < input.upstream_task_states@.len(),
        input.upstream_task_states@[k].1 != TaskState::Done,
    ensures
        !ready_rule(input),
{
}

/// A restricting ancestor package (any scope but active) blocks readiness.
pub proof fn lemma_restricting_ancestor_blocks(input: ReadyInput, k: int)
    requires
        0 <= k < input.ancestor_scopes@.len(),
        dotted_under(input.path@, input.ancestor_scopes@[k].0@),
        scope_restricts(input.ancestor_scopes@[k].1),
    ensures
        !ready_rule(input),
{
}

} // verus!
