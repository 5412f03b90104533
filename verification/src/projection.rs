//! The state projection of the nodes: rebuilt from the append-only event
//! stream, and the ready column that the store recomputes after each change.
use vstd::prelude::*;
use crate::state_machine::{TaskState, ScopeState, PlanState, scope_state_name, scope_restricts, lemma_names_roundtrip};
use crate::ready::{claimable_state, dotted_under, snapshot_ready, upstream_blocks, task_with_id, NodeRecord};
use crate::id::{uuid_text_value, uuid_value};
use crate::text::{str_eq, chars_of, chars_push, chars_starts_with, strictly_sorted, insert_sorted, views};

verus! {

/// One node row as the projection sees it: its identity and place in the
/// tree, and the state fields that the event stream determines.
#[derive(Debug, Clone)]
pub struct ProjNode {
    pub id: String,
    /// `"task"` or `"package"`.
    pub kind: String,
    pub path: String,
    pub task_state: Option<TaskState>,
    pub ready: bool,
    pub owner: Option<String>,
    /// The lease token, as the 128-bit value of its UUID.
    pub lease_token: Option<u128>,
    /// When the lease runs out, in milliseconds since the epoch.
    pub lease_expires: Option<i64>,
    pub needs_replan: bool,
    pub scope_state: String,
}

/// The value of a node row.
pub struct ProjView {
    pub id: Seq<char>,
    pub kind: Seq<char>,
    pub path: Seq<char>,
    pub task_state: Option<TaskState>,
    pub ready: bool,
    pub owner: Option<Seq<char>>,
    pub lease_token: Option<u128>,
    pub lease_expires: Option<i64>,
    pub needs_replan: bool,
    pub scope_state: Seq<char>,
}

pub open spec fn opt_view(o: Option<String>) -> Option<Seq<char>> {
    match o {
        Some(s) => Some(s@),
        None => None,
    }
}

impl View for ProjNode {
    type V = ProjView;

    open spec fn view(&self) -> ProjView {
        ProjView {
            id: self.id@,
            kind: self.kind@,
            path: self.path@,
            task_state: self.task_state,
            ready: self.ready,
            owner: opt_view(self.owner),
            lease_token: self.lease_token,
            lease_expires: self.lease_expires,
            needs_replan: self.needs_replan,
            scope_state: self.scope_state@,
        }
    }
}

/// One stored event, with the payload fields the projection reads.
#[derive(Debug, Clone)]
pub struct ProjEvent {
    pub node_id: Option<String>,
    pub kind: String,
    /// `payload.owner`, when it is a string.
    pub owner: Option<String>,
    /// `payload.lease_token`, when it is a string.
    pub lease_token: Option<String>,
    /// `payload.final`, when it is a boolean.
    pub final_flag: Option<bool>,
    /// `payload.verdict`, when it is a string.
    pub verdict: Option<String>,
    /// `payload.to`, when it is a string.
    pub to: Option<String>,
    /// `payload.affected`, when it is an array: each element, when it is a string.
    pub affected: Option<Vec<Option<String>>>,
}

/// The values of a list of node rows.
pub open spec fn views_of(nodes: Seq<ProjNode>) -> Seq<ProjView> {
    nodes.map_values(|n: ProjNode| n@)
}

/// No id occurs twice.
pub open spec fn ids_unique(nodes: Seq<ProjView>) -> bool {
    forall|a: int, b: int| 0 <= a < nodes.len() && 0 <= b < nodes.len() && a != b ==> (#[trigger] nodes[a]).id != (#[trigger] nodes[b]).id
}

/// A row with every event-derived field reset: tasks back to todo, packages
/// back to active, nothing ready, no owner or lease, no replan mark.
pub open spec fn baseline(n: ProjView) -> ProjView {
    ProjView {
        id: n.id,
        kind: n.kind,
        path: n.path,
        task_state: if n.kind == "task"@ { Some(TaskState::Todo) } else { n.task_state },
        ready: false,
        owner: None,
        lease_token: None,
        lease_expires: None,
        needs_replan: false,
        scope_state: if n.kind == "package"@ { "active"@ } else { n.scope_state },
    }
}

/// A row in state `st` with its owner and lease dropped.
pub open spec fn released(n: ProjView, st: TaskState, ready: bool) -> ProjView {
    ProjView { task_state: Some(st), ready, owner: None, lease_token: None, lease_expires: None, ..n }
}

/// The lease token an event names: its text read as a UUID, when it is one.
pub open spec fn token_of(t: Option<String>) -> Option<u128> {
    match t {
        Some(s) => uuid_text_value(s@),
        None => None,
    }
}

/// The event reports a failed validation.
pub open spec fn verdict_failed(ev: ProjEvent) -> bool {
    ev.verdict matches Some(v) && v@ == "failed"@
}

/// What an event that names a node does to that node.
pub open spec fn node_effect(n: ProjView, ev: ProjEvent) -> ProjView {
    let k = ev.kind@;
    if k == "task.claimed"@ {
        ProjView {
            task_state: Some(TaskState::Claimed),
            ready: false,
            owner: Some(
                match ev.owner {
                    Some(o) => o@,
                    None => "unknown"@,
                },
            ),
            lease_token: token_of(ev.lease_token),
            ..n
        }
    } else if k == "task.done"@ {
        released(n, TaskState::Done, false)
    } else if k == "task.failed"@ {
        released(n, TaskState::Failed, false)
    } else if k == "task.lease_expired"@ {
        if ev.final_flag == Some(true) {
            released(n, TaskState::Failed, false)
        } else {
            released(n, TaskState::Ready, true)
        }
    } else if k == "task.cancelled"@ {
        released(n, TaskState::Cancelled, false)
    } else if k == "task.validated"@ {
        if verdict_failed(ev) && n.task_state != Some(TaskState::Failed) {
            released(n, TaskState::Ready, true)
        } else {
            n
        }
    } else if k == "package.scope_changed"@ {
        ProjView {
            scope_state: match ev.to {
                Some(t) => t@,
                None => "active"@,
            },
            ..n
        }
    } else {
        n
    }
}

/// The entry is the text `id`.
pub open spec fn names(o: Option<String>, id: Seq<char>) -> bool {
    o matches Some(s) && s@ == id
}

/// The event marks the node `id` as needing a replan.
pub open spec fn marks(ev: ProjEvent, id: Seq<char>) -> bool {
    ev.affected matches Some(a) && exists|i: int| 0 <= i < a@.len() && names(#[trigger] a@[i], id)
}

/// The rows after one event.
pub open spec fn apply_event(nodes: Seq<ProjView>, ev: ProjEvent) -> Seq<ProjView> {
    if ev.kind@ == "contract.impact_marked"@ {
        nodes.map_values(|n: ProjView| if marks(ev, n.id) { ProjView { needs_replan: true, ..n } } else { n })
    } else {
        match ev.node_id {
            Some(nid) => nodes.map_values(|n: ProjView| if n.id == nid@ { node_effect(n, ev) } else { n }),
            None => nodes,
        }
    }
}

/// The event is one the rebuild counts as applied.
pub open spec fn counts(ev: ProjEvent) -> bool {
    let k = ev.kind@;
    if k == "graph.published"@ {
        true
    } else if k == "contract.impact_marked"@ {
        ev.affected is Some
    } else if k == "task.validated"@ {
        ev.node_id is Some && verdict_failed(ev)
    } else if k == "task.claimed"@ || k == "task.done"@ || k == "task.failed"@ || k == "task.lease_expired"@
        || k == "task.cancelled"@ || k == "package.scope_changed"@ {
        ev.node_id is Some
    } else {
        false
    }
}

/// The rows after the events, in order.
pub open spec fn replay(nodes: Seq<ProjView>, evs: Seq<ProjEvent>) -> Seq<ProjView>
    decreases evs.len(),
{
    if evs.len() == 0 {
        nodes
    } else {
        apply_event(replay(nodes, evs.drop_last()), evs.last())
    }
}

/// How many of the events count as applied.
pub open spec fn applied(evs: Seq<ProjEvent>) -> nat
    decreases evs.len(),
{
    if evs.len() == 0 {
        0
    } else {
        applied(evs.drop_last()) + if counts(evs.last()) { 1nat } else { 0nat }
    }
}

/// Every upstream task of the node `id` (an edge into it from a task) is done.
pub open spec fn upstream_done(nodes: Seq<ProjView>, edges: Seq<(String, String)>, id: Seq<char>) -> bool {
    forall|e: int, u: int|
        0 <= e < edges.len() && 0 <= u < nodes.len() && (#[trigger] edges[e]).1@ == id && (#[trigger] nodes[u]).id
            == edges[e].0@ && nodes[u].kind == "task"@ ==> nodes[u].task_state == Some(TaskState::Done)
}

/// No package that is not active lies above `path`.
pub open spec fn unrestricted(nodes: Seq<ProjView>, path: Seq<char>) -> bool {
    forall|p: int|
        0 <= p < nodes.len() && (#[trigger] nodes[p]).kind == "package"@ && nodes[p].scope_state != "active"@
            ==> !dotted_under(path, nodes[p].path)
}

/// A task in todo or ready should be ready.
pub open spec fn should_ready(nodes: Seq<ProjView>, edges: Seq<(String, String)>, n: ProjView) -> bool {
    upstream_done(nodes, edges, n.id) && unrestricted(nodes, n.path)
}

/// One row after the ready recompute: a task in todo or ready takes ready
/// when it should be ready, and todo otherwise; every other row is kept.
pub open spec fn recomputed_node(nodes: Seq<ProjView>, edges: Seq<(String, String)>, n: ProjView) -> ProjView {
    if n.kind == "task"@ && claimable_state(n.task_state) {
        let r = should_ready(nodes, edges, n);
        ProjView { ready: r, task_state: Some(if r { TaskState::Ready } else { TaskState::Todo }), ..n }
    } else {
        n
    }
}

/// The rows after the ready recompute.
pub open spec fn recompute(nodes: Seq<ProjView>, edges: Seq<(String, String)>) -> Seq<ProjView> {
    nodes.map_values(|n: ProjView| recomputed_node(nodes, edges, n))
}

/// Every task in todo or ready has the ready flag it should have.
pub open spec fn ready_consistent(nodes: Seq<ProjView>, edges: Seq<(String, String)>) -> bool {
    forall|k: int|
        0 <= k < nodes.len() && (#[trigger] nodes[k]).kind == "task"@ && claimable_state(nodes[k].task_state)
            ==> nodes[k].ready == should_ready(nodes, edges, nodes[k])
}

/// The rows that a rebuild produces.
pub open spec fn rebuilt(nodes: Seq<ProjView>, edges: Seq<(String, String)>, evs: Seq<ProjEvent>) -> Seq<ProjView> {
    recompute(replay(nodes.map_values(|n: ProjView| baseline(n)), evs), edges)
}

/// The id of a ready task at a position of `nodes`.
pub open spec fn ready_task_at(nodes: Seq<ProjView>, k: int, x: Seq<char>) -> bool {
    0 <= k < nodes.len() && nodes[k].kind == "task"@ && nodes[k].ready && nodes[k].id == x
}

/// What a rebuild gives back.
#[derive(Debug, Clone)]
pub struct Rebuilt {
    /// The rows, in the order they were given.
    pub nodes: Vec<ProjNode>,
    pub events_applied: usize,
    /// The ids of the ready tasks, sorted.
    pub ready: Vec<String>,
    /// Every task in todo or ready has the ready flag it should have.
    pub consistent: bool,
}

fn copy_opt_string(o: &Option<String>) -> (r: Option<String>)
    ensures
        opt_view(r) == opt_view(*o),
{
    match o {
        Some(s) => Some(s.clone()),
        None => None,
    }
}

fn copy_node(n: &ProjNode) -> (r: ProjNode)
    ensures
        r@ == n@,
{
    ProjNode {
        id: n.id.clone(),
        kind: n.kind.clone(),
        path: n.path.clone(),
        task_state: n.task_state,
        ready: n.ready,
        owner: copy_opt_string(&n.owner),
        lease_token: n.lease_token,
        lease_expires: n.lease_expires,
        needs_replan: n.needs_replan,
        scope_state: n.scope_state.clone(),
    }
}

fn baseline_node(n: &ProjNode) -> (r: ProjNode)
    ensures
        r@ == baseline(n@),
{
    let is_task = str_eq(n.kind.as_str(), "task");
    let is_package = str_eq(n.kind.as_str(), "package");
    ProjNode {
        id: n.id.clone(),
        kind: n.kind.clone(),
        path: n.path.clone(),
        task_state: if is_task { Some(TaskState::Todo) } else { n.task_state },
        ready: false,
        owner: None,
        lease_token: None,
        lease_expires: None,
        needs_replan: false,
        scope_state: if is_package { String::from_str("active") } else { n.scope_state.clone() },
    }
}

fn release(n: &ProjNode, st: TaskState, ready: bool) -> (r: ProjNode)
    ensures
        r@ == released(n@, st, ready),
{
    ProjNode {
        id: n.id.clone(),
        kind: n.kind.clone(),
        path: n.path.clone(),
        task_state: Some(st),
        ready,
        owner: None,
        lease_token: None,
        lease_expires: None,
        needs_replan: n.needs_replan,
        scope_state: n.scope_state.clone(),
    }
}

fn effect(n: &ProjNode, ev: &ProjEvent) -> (r: ProjNode)
    ensures
        r@ == node_effect(n@, *ev),
{
    let k = ev.kind.as_str();
    if str_eq(k, "task.claimed") {
        let owner = match &ev.owner {
            Some(o) => o.clone(),
            None => String::from_str("unknown"),
        };
        let token = match &ev.lease_token {
            Some(t) => uuid_value(t.as_str()),
            None => None,
        };
        ProjNode {
            id: n.id.clone(),
            kind: n.kind.clone(),
            path: n.path.clone(),
            task_state: Some(TaskState::Claimed),
            ready: false,
            owner: Some(owner),
            lease_token: token,
            lease_expires: n.lease_expires,
            needs_replan: n.needs_replan,
            scope_state: n.scope_state.clone(),
        }
    } else if str_eq(k, "task.done") {
        release(n, TaskState::Done, false)
    } else if str_eq(k, "task.failed") {
        release(n, TaskState::Failed, false)
    } else if str_eq(k, "task.lease_expired") {
        if ev.final_flag == Some(true) {
            release(n, TaskState::Failed, false)
        } else {
            release(n, TaskState::Ready, true)
        }
    } else if str_eq(k, "task.cancelled") {
        release(n, TaskState::Cancelled, false)
    } else if str_eq(k, "task.validated") {
        let failed = match &ev.verdict {
            Some(v) => str_eq(v.as_str(), "failed"),
            None => false,
        };
        if failed && n.task_state != Some(TaskState::Failed) {
            release(n, TaskState::Ready, true)
        } else {
            copy_node(n)
        }
    } else if str_eq(k, "package.scope_changed") {
        let to = match &ev.to {
            Some(t) => t.clone(),
            None => String::from_str("active"),
        };
        ProjNode {
            id: n.id.clone(),
            kind: n.kind.clone(),
            path: n.path.clone(),
            task_state: n.task_state,
            ready: n.ready,
            owner: copy_opt_string(&n.owner),
            lease_token: n.lease_token,
            lease_expires: n.lease_expires,
            needs_replan: n.needs_replan,
            scope_state: to,
        }
    } else {
        copy_node(n)
    }
}

fn marks_id(ev: &ProjEvent, id: &String) -> (r: bool)
    ensures
        r == marks(*ev, id@),
{
    match &ev.affected {
        None => false,
        Some(a) => {
            let mut i: usize = 0;
            while i < a.len()
                invariant
                    i <= a@.len(),
                    ev.affected == Some(*a),
                    forall|j: int| 0 <= j < i ==> !names(#[trigger] a@[j], id@),
                decreases a.len() - i,
            {
                match &a[i] {
                    Some(s) => {
                        if str_eq(s.as_str(), id.as_str()) {
                            assert(names(a@[i as int], id@));
                            assert(ev.affected.unwrap()@ == a@);
                            assert(marks(*ev, id@));
                            return true;
                        }
                    },
                    None => {},
                }
                i = i + 1;
            }
            false
        },
    }
}

fn counts_exec(ev: &ProjEvent) -> (r: bool)
    ensures
        r == counts(*ev),
{
    let k = ev.kind.as_str();
    if str_eq(k, "graph.published") {
        true
    } else if str_eq(k, "contract.impact_marked") {
        ev.affected.is_some()
    } else if str_eq(k, "task.validated") {
        let failed = match &ev.verdict {
            Some(v) => str_eq(v.as_str(), "failed"),
            None => false,
        };
        ev.node_id.is_some() && failed
    } else if str_eq(k, "task.claimed") || str_eq(k, "task.done") || str_eq(k, "task.failed") || str_eq(
        k,
        "task.lease_expired",
    ) || str_eq(k, "task.cancelled") || str_eq(k, "package.scope_changed") {
        ev.node_id.is_some()
    } else {
        false
    }
}

/// The rows after one event.
fn apply_one(nodes: &Vec<ProjNode>, ev: &ProjEvent) -> (r: Vec<ProjNode>)
    ensures
        views_of(r@) == apply_event(views_of(nodes@), *ev),
{
    let impact = str_eq(ev.kind.as_str(), "contract.impact_marked");
    let ghost target = apply_event(views_of(nodes@), *ev);
    let mut out: Vec<ProjNode> = Vec::new();
    let mut i: usize = 0;
    while i < nodes.len()
        invariant
            i <= nodes@.len(),
            impact == (ev.kind@ == "contract.impact_marked"@),
            target == apply_event(views_of(nodes@), *ev),
            target.len() == nodes@.len(),
            out@.len() == i,
            forall|j: int| 0 <= j < i ==> (#[trigger] out@[j])@ == target[j],
        decreases nodes.len() - i,
    {
        let n = &nodes[i];
        let next = if impact {
            if marks_id(ev, &n.id) {
                let mut m = copy_node(n);
                m.needs_replan = true;
                m
            } else {
                copy_node(n)
            }
        } else {
            match &ev.node_id {
                Some(nid) => {
                    if str_eq(n.id.as_str(), nid.as_str()) {
                        effect(n, ev)
                    } else {
                        copy_node(n)
                    }
                },
                None => copy_node(n),
            }
        };
        out.push(next);
        i = i + 1;
    }
    assert(views_of(out@) =~= target);
    out
}

/// Whether every upstream task of `id` is done.
fn upstream_done_exec(nodes: &Vec<ProjNode>, edges: &Vec<(String, String)>, id: &String) -> (r: bool)
    ensures
        r == upstream_done(views_of(nodes@), edges@, id@),
{
    let ghost nv = views_of(nodes@);
    let mut e: usize = 0;
    while e < edges.len()
        invariant
            e <= edges@.len(),
            nv == views_of(nodes@),
            forall|x: int, u: int|
                0 <= x < e && 0 <= u < nv.len() && (#[trigger] edges@[x]).1@ == id@ && (#[trigger] nv[u]).id == edges@[x].0@
                    && nv[u].kind == "task"@ ==> nv[u].task_state == Some(TaskState::Done),
        decreases edges.len() - e,
    {
        if str_eq(edges[e].1.as_str(), id.as_str()) {
            let mut u: usize = 0;
            while u < nodes.len()
                invariant
                    e < edges@.len(),
                    u <= nodes@.len(),
                    nv == views_of(nodes@),
                    edges@[e as int].1@ == id@,
                    forall|x: int, u2: int|
                        0 <= x < e && 0 <= u2 < nv.len() && (#[trigger] edges@[x]).1@ == id@ && (#[trigger] nv[u2]).id
                            == edges@[x].0@ && nv[u2].kind == "task"@ ==> nv[u2].task_state == Some(TaskState::Done),
                    forall|u2: int|
                        0 <= u2 < u && (#[trigger] nv[u2]).id == edges@[e as int].0@ && nv[u2].kind == "task"@
                            ==> nv[u2].task_state == Some(TaskState::Done),
                decreases nodes.len() - u,
            {
                if str_eq(nodes[u].id.as_str(), edges[e].0.as_str()) && str_eq(nodes[u].kind.as_str(), "task")
                    && nodes[u].task_state != Some(TaskState::Done) {
                    assert(nv[u as int] == nodes@[u as int]@);
                    return false;
                }
                assert(nv[u as int] == nodes@[u as int]@);
                u = u + 1;
            }
        }
        e = e + 1;
    }
    true
}

/// Whether no package that is not active lies above `path`.
fn unrestricted_exec(nodes: &Vec<ProjNode>, path: &String) -> (r: bool)
    ensures
        r == unrestricted(views_of(nodes@), path@),
{
    let ghost nv = views_of(nodes@);
    let pc = chars_of(path.as_str());
    let mut p: usize = 0;
    while p < nodes.len()
        invariant
            p <= nodes@.len(),
            nv == views_of(nodes@),
            pc@ == path@,
            forall|q: int|
                0 <= q < p && (#[trigger] nv[q]).kind == "package"@ && nv[q].scope_state != "active"@
                    ==> !dotted_under(path@, nv[q].path),
        decreases nodes.len() - p,
    {
        assert(nv[p as int] == nodes@[p as int]@);
        if str_eq(nodes[p].kind.as_str(), "package") && !str_eq(nodes[p].scope_state.as_str(), "active") {
            let dotted = chars_push(&chars_of(nodes[p].path.as_str()), '.');
            if chars_starts_with(&pc, &dotted) {
                return false;
            }
        }
        p = p + 1;
    }
    true
}

/// The rows after the ready recompute.
fn recompute_exec(nodes: &Vec<ProjNode>, edges: &Vec<(String, String)>) -> (r: Vec<ProjNode>)
    ensures
        views_of(r@) == recompute(views_of(nodes@), edges@),
{
    let ghost nv = views_of(nodes@);
    let ghost target = recompute(nv, edges@);
    let mut out: Vec<ProjNode> = Vec::new();
    let mut i: usize = 0;
    while i < nodes.len()
        invariant
            i <= nodes@.len(),
            nv == views_of(nodes@),
            target == recompute(nv, edges@),
            target.len() == nodes@.len(),
            out@.len() == i,
            forall|j: int| 0 <= j < i ==> (#[trigger] out@[j])@ == target[j],
        decreases nodes.len() - i,
    {
        let n = &nodes[i];
        assert(nv[i as int] == n@);
        let claimable = match n.task_state {
            Some(TaskState::Todo) => true,
            Some(TaskState::Ready) => true,
            _ => false,
        };
        let next = if str_eq(n.kind.as_str(), "task") && claimable {
            let r = upstream_done_exec(nodes, edges, &n.id) && unrestricted_exec(nodes, &n.path);
            let mut m = copy_node(n);
            m.ready = r;
            m.task_state = Some(if r { TaskState::Ready } else { TaskState::Todo });
            m
        } else {
            copy_node(n)
        };
        out.push(next);
        i = i + 1;
    }
    assert(views_of(out@) =~= target);
    out
}

/// The ids of the ready tasks among the rows, sorted.
fn ready_task_ids(out: &Vec<ProjNode>) -> (ready: Vec<String>)
    requires
        ids_unique(views_of(out@)),
    ensures
        strictly_sorted(views(ready@)),
        forall|x: Seq<char>|
            #[trigger] views(ready@).contains(x) <==> exists|k: int| ready_task_at(views_of(out@), k, x),
{
    let ghost res = views_of(out@);
    let mut ready: Vec<String> = Vec::new();
    let mut k: usize = 0;
    while k < out.len()
        invariant
            k <= out@.len(),
            res == views_of(out@),
            ids_unique(res),
            strictly_sorted(views(ready@)),
            forall|x: Seq<char>|
                #[trigger] views(ready@).contains(x) <==> exists|k2: int| 0 <= k2 < k && ready_task_at(res, k2, x),
        decreases out.len() - k,
    {
        assert(res[k as int] == out@[k as int]@);
        let ghost before = views(ready@);
        let take = str_eq(out[k].kind.as_str(), "task") && out[k].ready;
        if take {
            proof {
                if views(ready@).contains(res[k as int].id) {
                    let k2 = choose|k2: int| 0 <= k2 < k && ready_task_at(res, k2, res[k as int].id);
                    assert(res[k2].id != res[k as int].id);
                }
            }
            insert_sorted(&mut ready, out[k].id.clone());
        }
        proof {
            assert(take == ready_task_at(res, k as int, res[k as int].id));
            assert forall|x: Seq<char>|
                #[trigger] views(ready@).contains(x) <==> exists|k2: int| 0 <= k2 < k + 1 && ready_task_at(res, k2, x) by {
                if take {
                    assert(views(ready@).contains(x) <==> (before.contains(x) || x == res[k as int].id));
                } else {
                    assert(views(ready@) == before);
                }
                if exists|k2: int| 0 <= k2 < k + 1 && ready_task_at(res, k2, x) {
                    let k2 = choose|k2: int| 0 <= k2 < k + 1 && ready_task_at(res, k2, x);
                    if k2 < k {
                        assert(exists|k3: int| 0 <= k3 < k && ready_task_at(res, k3, x));
                    } else {
                        assert(take && x == res[k as int].id);
                    }
                }
                if views(ready@).contains(x) {
                    if before.contains(x) {
                        let k3 = choose|k3: int| 0 <= k3 < k && ready_task_at(res, k3, x);
                        assert(0 <= k3 < k + 1 && ready_task_at(res, k3, x));
                    } else {
                        assert(ready_task_at(res, k as int, x));
                    }
                }
            }
        }
        k = k + 1;
    }
    proof {
        assert forall|x: Seq<char>|
            #[trigger] views(ready@).contains(x) <==> exists|k2: int| ready_task_at(res, k2, x) by {
            if exists|k2: int| ready_task_at(res, k2, x) {
                let k2 = choose|k2: int| ready_task_at(res, k2, x);
                assert(0 <= k2 < out@.len());
            }
        }
    }
    ready
}

/// The pure part of the store's ready recompute: the rows with ready
/// recomputed, and the ids of the ready tasks, sorted.
pub fn apply_recompute(nodes: &Vec<ProjNode>, edges: &Vec<(String, String)>) -> (r: (Vec<ProjNode>, Vec<String>))
    requires
        ids_unique(views_of(nodes@)),
    ensures
        views_of(r.0@) == recompute(views_of(nodes@), edges@),
        strictly_sorted(views(r.1@)),
        forall|x: Seq<char>| #[trigger] views(r.1@).contains(x) <==> exists|k: int| ready_task_at(views_of(r.0@), k, x),
{
    let out = recompute_exec(nodes, edges);
    proof {
        let nv = views_of(nodes@);
        let res = views_of(out@);
        assert forall|a: int, b: int| 0 <= a < res.len() && 0 <= b < res.len() && a != b implies (#[trigger] res[a]).id
            != (#[trigger] res[b]).id by {
            assert(nv[a].id != nv[b].id);
        }
    }
    let ready = ready_task_ids(&out);
    (out, ready)
}

/// The ready flag every task should have, task by task in row order: a task
/// in todo or ready whose upstream tasks are done and which no inactive
/// package lies above.
pub open spec fn expected_ready(nodes: Seq<ProjView>, edges: Seq<(String, String)>) -> Seq<(Seq<char>, bool)> {
    expected_ready_upto(nodes, edges, nodes.len() as int)
}

pub open spec fn expected_ready_upto(nodes: Seq<ProjView>, edges: Seq<(String, String)>, n: int) -> Seq<(Seq<char>, bool)>
    decreases n,
{
    if n <= 0 {
        Seq::empty()
    } else if nodes[n - 1].kind == "task"@ {
        expected_ready_upto(nodes, edges, n - 1).push(
            (nodes[n - 1].id, claimable_state(nodes[n - 1].task_state) && should_ready(nodes, edges, nodes[n - 1])),
        )
    } else {
        expected_ready_upto(nodes, edges, n - 1)
    }
}

/// The ready flag every task should have, computed independently of the
/// stored flags: (id, should be ready) for each task, in row order.
pub fn recompute_all(nodes: &Vec<ProjNode>, edges: &Vec<(String, String)>) -> (r: Vec<(String, bool)>)
    ensures
        r@.map_values(|p: (String, bool)| (p.0@, p.1)) == expected_ready(views_of(nodes@), edges@),
{
    let ghost nv = views_of(nodes@);
    let mut r: Vec<(String, bool)> = Vec::new();
    let mut k: usize = 0;
    while k < nodes.len()
        invariant
            k <= nodes@.len(),
            nv == views_of(nodes@),
            r@.map_values(|p: (String, bool)| (p.0@, p.1)) == expected_ready_upto(nv, edges@, k as int),
        decreases nodes.len() - k,
    {
        let n = &nodes[k];
        assert(nv[k as int] == n@);
        let ghost before = r@.map_values(|p: (String, bool)| (p.0@, p.1));
        if str_eq(n.kind.as_str(), "task") {
            let claimable = match n.task_state {
                Some(TaskState::Todo) => true,
                Some(TaskState::Ready) => true,
                _ => false,
            };
            let should = claimable && upstream_done_exec(nodes, edges, &n.id) && unrestricted_exec(nodes, &n.path);
            r.push((n.id.clone(), should));
            assert(r@.map_values(|p: (String, bool)| (p.0@, p.1)) =~= before.push((n.id@, should)));
        }
        k = k + 1;
    }
    r
}

/// Whether every task in todo or ready has the ready flag it should have.
pub fn verify_ready_consistent(nodes: &Vec<ProjNode>, edges: &Vec<(String, String)>) -> (r: bool)
    ensures
        r == ready_consistent(views_of(nodes@), edges@),
{
    let ghost nv = views_of(nodes@);
    let mut k: usize = 0;
    while k < nodes.len()
        invariant
            k <= nodes@.len(),
            nv == views_of(nodes@),
            forall|j: int|
                0 <= j < k && (#[trigger] nv[j]).kind == "task"@ && claimable_state(nv[j].task_state)
                    ==> nv[j].ready == should_ready(nv, edges@, nv[j]),
        decreases nodes.len() - k,
    {
        let n = &nodes[k];
        assert(nv[k as int] == n@);
        let claimable = match n.task_state {
            Some(TaskState::Todo) => true,
            Some(TaskState::Ready) => true,
            _ => false,
        };
        if str_eq(n.kind.as_str(), "task") && claimable {
            let should = upstream_done_exec(nodes, edges, &n.id) && unrestricted_exec(nodes, &n.path);
            if n.ready != should {
                return false;
            }
        }
        k = k + 1;
    }
    true
}

/// Two row lists agree on what every step here keeps: same length, and row
/// by row the same id, kind and path.
pub open spec fn same_rows(a: Seq<ProjView>, b: Seq<ProjView>) -> bool {
    a.len() == b.len() && forall|k: int|
        0 <= k < a.len() ==> (#[trigger] a[k]).id == b[k].id && a[k].kind == b[k].kind && a[k].path == b[k].path
}

proof fn lemma_apply_keeps_rows(nodes: Seq<ProjView>, ev: ProjEvent)
    ensures
        same_rows(apply_event(nodes, ev), nodes),
{
}

proof fn lemma_replay_keeps_rows(nodes: Seq<ProjView>, evs: Seq<ProjEvent>)
    ensures
        same_rows(replay(nodes, evs), nodes),
    decreases evs.len(),
{
    if evs.len() > 0 {
        lemma_replay_keeps_rows(nodes, evs.drop_last());
        lemma_apply_keeps_rows(replay(nodes, evs.drop_last()), evs.last());
    }
}

proof fn lemma_rebuilt_keeps_rows(nodes: Seq<ProjView>, edges: Seq<(String, String)>, evs: Seq<ProjEvent>)
    ensures
        same_rows(rebuilt(nodes, edges, evs), nodes),
{
    let base = nodes.map_values(|n: ProjView| baseline(n));
    lemma_replay_keeps_rows(base, evs);
}

/// After the ready recompute every task in todo or ready carries the ready
/// flag it should have: the recompute never leaves the projection
/// inconsistent.
pub proof fn lemma_recompute_consistent(nodes: Seq<ProjView>, edges: Seq<(String, String)>)
    ensures
        ready_consistent(recompute(nodes, edges), edges),
{
    let r = recompute(nodes, edges);
    assert forall|u: int| 0 <= u < nodes.len() implies {
        &&& (#[trigger] r[u]).id == nodes[u].id
        &&& r[u].kind == nodes[u].kind
        &&& r[u].path == nodes[u].path
        &&& r[u].scope_state == nodes[u].scope_state
        &&& (r[u].task_state == Some(TaskState::Done) <==> nodes[u].task_state == Some(TaskState::Done))
    } by {
    }
    assert forall|k: int|
        0 <= k < r.len() && (#[trigger] r[k]).kind == "task"@ && claimable_state(r[k].task_state) implies r[k].ready
        == should_ready(r, edges, r[k]) by {
        assert(upstream_done(r, edges, r[k].id) == upstream_done(nodes, edges, nodes[k].id)) by {
            if upstream_done(nodes, edges, nodes[k].id) {
                assert forall|e: int, u: int|
                    0 <= e < edges.len() && 0 <= u < r.len() && (#[trigger] edges[e]).1@ == r[k].id && (#[trigger] r[u]).id
                        == edges[e].0@ && r[u].kind == "task"@ implies r[u].task_state == Some(TaskState::Done) by {
                    assert(nodes[u].id == edges[e].0@);
                }
            }
            if upstream_done(r, edges, r[k].id) {
                assert forall|e: int, u: int|
                    0 <= e < edges.len() && 0 <= u < nodes.len() && (#[trigger] edges[e]).1@ == nodes[k].id && (#[trigger] nodes[u]).id
                        == edges[e].0@ && nodes[u].kind == "task"@ implies nodes[u].task_state == Some(TaskState::Done) by {
                    assert(r[u].id == edges[e].0@);
                }
            }
        }
        assert(unrestricted(r, r[k].path) == unrestricted(nodes, nodes[k].path)) by {
            if unrestricted(nodes, nodes[k].path) {
                assert forall|p: int|
                    0 <= p < r.len() && (#[trigger] r[p]).kind == "package"@ && r[p].scope_state != "active"@ implies !dotted_under(
                    r[k].path,
                    r[p].path,
                ) by {
                    assert(nodes[p].kind == "package"@);
                }
            }
            if unrestricted(r, r[k].path) {
                assert forall|p: int|
                    0 <= p < nodes.len() && (#[trigger] nodes[p]).kind == "package"@ && nodes[p].scope_state != "active"@ implies !dotted_under(
                    nodes[k].path,
                    nodes[p].path,
                ) by {
                    assert(r[p].kind == "package"@);
                }
            }
        }
    }
}

/// Rebuilds the state projection from the event stream: every event-derived
/// field is reset, the events are applied in order, and ready is recomputed.
/// The id, kind and path of each row are kept; so are a package's task
/// state and a task's scope state, except where an event sets them.
pub fn rebuild_projection(nodes: &Vec<ProjNode>, edges: &Vec<(String, String)>, events: &Vec<ProjEvent>) -> (r: Rebuilt)
    requires
        ids_unique(views_of(nodes@)),
    ensures
        views_of(r.nodes@) == rebuilt(views_of(nodes@), edges@, events@),
        r.events_applied == applied(events@),
        strictly_sorted(views(r.ready@)),
        forall|x: Seq<char>|
            #[trigger] views(r.ready@).contains(x) <==> exists|k: int| ready_task_at(views_of(r.nodes@), k, x),
        r.consistent == ready_consistent(views_of(r.nodes@), edges@),
        r.consistent,
{
    let ghost nv = views_of(nodes@);
    let ghost base = nv.map_values(|n: ProjView| baseline(n));
    let mut cur: Vec<ProjNode> = Vec::new();
    let mut i: usize = 0;
    while i < nodes.len()
        invariant
            i <= nodes@.len(),
            nv == views_of(nodes@),
            base == nv.map_values(|n: ProjView| baseline(n)),
            cur@.len() == i,
            forall|j: int| 0 <= j < i ==> (#[trigger] cur@[j])@ == base[j],
        decreases nodes.len() - i,
    {
        cur.push(baseline_node(&nodes[i]));
        i = i + 1;
    }
    assert(views_of(cur@) =~= base);
    assert(events@.subrange(0, 0) =~= Seq::<ProjEvent>::empty());
    let mut count: usize = 0;
    let mut e: usize = 0;
    while e < events.len()
        invariant
            e <= events@.len(),
            count <= e,
            views_of(cur@) == replay(base, events@.subrange(0, e as int)),
            count == applied(events@.subrange(0, e as int)),
        decreases events.len() - e,
    {
        let ghost pre = events@.subrange(0, e + 1);
        assert(pre.drop_last() =~= events@.subrange(0, e as int));
        assert(pre.last() == events@[e as int]);
        cur = apply_one(&cur, &events[e]);
        if counts_exec(&events[e]) {
            count = count + 1;
        }
        e = e + 1;
    }
    assert(events@.subrange(0, events@.len() as int) =~= events@);
    let out = recompute_exec(&cur, edges);
    let ghost res = views_of(out@);
    proof {
        lemma_rebuilt_keeps_rows(nv, edges@, events@);
        assert(ids_unique(res)) by {
            assert forall|a: int, b: int| 0 <= a < res.len() && 0 <= b < res.len() && a != b implies (#[trigger] res[a]).id
                != (#[trigger] res[b]).id by {
                assert(nv[a].id != nv[b].id);
            }
        }
    }
    let ready = ready_task_ids(&out);
    let consistent = verify_ready_consistent(&out, edges);
    proof {
        lemma_recompute_consistent(views_of(cur@), edges@);
    }
    Rebuilt { nodes: out, events_applied: count, ready, consistent }
}

/// A rebuild depends only on what it does not reset: two row lists that
/// agree, row by row, on id, kind and path, on the task state of every
/// row that is not a task and on the scope state of every row that is not
/// a package, rebuild to the same rows from the same events.
pub proof fn lemma_rebuild_forgets_projection(
    a: Seq<ProjView>,
    b: Seq<ProjView>,
    edges: Seq<(String, String)>,
    evs: Seq<ProjEvent>,
)
    requires
        same_rows(a, b),
        forall|k: int| 0 <= k < a.len() && (#[trigger] a[k]).kind != "task"@ ==> a[k].task_state == b[k].task_state,
        forall|k: int| 0 <= k < a.len() && (#[trigger] a[k]).kind != "package"@ ==> a[k].scope_state == b[k].scope_state,
    ensures
        rebuilt(a, edges, evs) == rebuilt(b, edges, evs),
{
    assert(a.map_values(|n: ProjView| baseline(n)) =~= b.map_values(|n: ProjView| baseline(n)));
}

/// The rows a rebuild produces are consistent: every task in todo or ready
/// carries the ready flag it should have.
pub proof fn lemma_rebuild_consistent(nodes: Seq<ProjView>, edges: Seq<(String, String)>, evs: Seq<ProjEvent>)
    ensures
        ready_consistent(rebuilt(nodes, edges, evs), edges),
{
    lemma_recompute_consistent(replay(nodes.map_values(|n: ProjView| baseline(n)), evs), edges);
}

/// One event applied to one row.
pub open spec fn node_step(n: ProjView, ev: ProjEvent) -> ProjView {
    if ev.kind@ == "contract.impact_marked"@ {
        if marks(ev, n.id) {
            ProjView { needs_replan: true, ..n }
        } else {
            n
        }
    } else {
        match ev.node_id {
            Some(nid) => if n.id == nid@ {
                node_effect(n, ev)
            } else {
                n
            },
            None => n,
        }
    }
}

/// One row after the events, in order.
pub open spec fn node_replay(n: ProjView, evs: Seq<ProjEvent>) -> ProjView
    decreases evs.len(),
{
    if evs.len() == 0 {
        n
    } else {
        node_step(node_replay(n, evs.drop_last()), evs.last())
    }
}

proof fn lemma_replay_rowwise(nodes: Seq<ProjView>, evs: Seq<ProjEvent>)
    ensures
        replay(nodes, evs).len() == nodes.len(),
        forall|k: int| 0 <= k < nodes.len() ==> #[trigger] replay(nodes, evs)[k] == node_replay(nodes[k], evs),
    decreases evs.len(),
{
    if evs.len() > 0 {
        lemma_replay_rowwise(nodes, evs.drop_last());
    }
}

/// The event names the row `id` and sets its lease fields whatever they were.
pub open spec fn resets_lease(ev: ProjEvent, id: Seq<char>) -> bool {
    let k = ev.kind@;
    &&& k != "contract.impact_marked"@
    &&& ev.node_id matches Some(nid) && nid@ == id
    &&& (k == "task.claimed"@ || k == "task.done"@ || k == "task.failed"@ || k == "task.lease_expired"@ || k == "task.cancelled"@)
}

/// The event names the row `id` and reopens it unless it failed.
pub open spec fn reopens(ev: ProjEvent, id: Seq<char>) -> bool {
    let k = ev.kind@;
    &&& k != "contract.impact_marked"@
    &&& ev.node_id matches Some(nid) && nid@ == id
    &&& !(k == "task.claimed"@ || k == "task.done"@ || k == "task.failed"@ || k == "task.lease_expired"@ || k == "task.cancelled"@)
    &&& k == "task.validated"@
    &&& verdict_failed(ev)
}

/// The event names the row `id` and sets its scope state.
pub open spec fn sets_scope(ev: ProjEvent, id: Seq<char>) -> bool {
    let k = ev.kind@;
    &&& k != "contract.impact_marked"@
    &&& ev.node_id matches Some(nid) && nid@ == id
    &&& !(k == "task.claimed"@ || k == "task.done"@ || k == "task.failed"@ || k == "task.lease_expired"@ || k == "task.cancelled"@
        || k == "task.validated"@)
    &&& k == "package.scope_changed"@
}

/// The fields a lease decides.
pub open spec fn lease_part(n: ProjView) -> (Option<TaskState>, bool, Option<Seq<char>>, Option<u128>, Option<i64>) {
    (n.task_state, n.ready, n.owner, n.lease_token, n.lease_expires)
}

proof fn lemma_step_keeps(n: ProjView, ev: ProjEvent)
    ensures
        node_step(n, ev).id == n.id,
        node_step(n, ev).kind == n.kind,
        node_step(n, ev).path == n.path,
        node_step(n, ev).lease_expires == n.lease_expires || node_step(n, ev).lease_expires is None,
        resets_lease(ev, n.id) ==> node_step(n, ev).lease_expires is None || node_step(n, ev).lease_expires == n.lease_expires,
        !resets_lease(ev, n.id) && !reopens(ev, n.id) ==> lease_part(node_step(n, ev)) == lease_part(n),
        reopens(ev, n.id) ==> lease_part(node_step(n, ev)) == (if n.task_state != Some(TaskState::Failed) {
            lease_part(released(n, TaskState::Ready, true))
        } else {
            lease_part(n)
        }),
        !sets_scope(ev, n.id) ==> node_step(n, ev).scope_state == n.scope_state,
        node_step(n, ev).needs_replan == (n.needs_replan || (ev.kind@ == "contract.impact_marked"@ && marks(ev, n.id))),
{
}

proof fn lemma_step_congruent(n1: ProjView, n2: ProjView, ev: ProjEvent)
    requires
        n1.id == n2.id,
    ensures
        lease_part(n1) == lease_part(n2) ==> lease_part(node_step(n1, ev)) == lease_part(node_step(n2, ev)),
        resets_lease(ev, n1.id) && n1.lease_expires is None && n2.lease_expires is None ==> lease_part(node_step(n1, ev)) == lease_part(
            node_step(n2, ev),
        ),
        sets_scope(ev, n1.id) ==> node_step(n1, ev).scope_state == node_step(n2, ev).scope_state,
        n1.scope_state == n2.scope_state ==> node_step(n1, ev).scope_state == node_step(n2, ev).scope_state,
{
}

proof fn lemma_replay_keeps(n: ProjView, evs: Seq<ProjEvent>)
    ensures
        node_replay(n, evs).id == n.id,
        node_replay(n, evs).kind == n.kind,
        node_replay(n, evs).path == n.path,
    decreases evs.len(),
{
    if evs.len() > 0 {
        lemma_replay_keeps(n, evs.drop_last());
        lemma_step_keeps(node_replay(n, evs.drop_last()), evs.last());
    }
}

/// Once an event has set a row's lease fields, what they were before no
/// longer matters.
proof fn lemma_lease_reset_forgets(n1: ProjView, n2: ProjView, evs: Seq<ProjEvent>)
    requires
        n1.id == n2.id,
        n1.lease_expires is None,
        n2.lease_expires is None,
    ensures
        node_replay(n1, evs).lease_expires is None,
        node_replay(n2, evs).lease_expires is None,
        (exists|i: int| 0 <= i < evs.len() && resets_lease(#[trigger] evs[i], n1.id)) ==> lease_part(node_replay(n1, evs))
            == lease_part(node_replay(n2, evs)),
    decreases evs.len(),
{
    if evs.len() > 0 {
        let e0 = evs.drop_last();
        lemma_lease_reset_forgets(n1, n2, e0);
        let m1 = node_replay(n1, e0);
        let m2 = node_replay(n2, e0);
        lemma_replay_keeps(n1, e0);
        lemma_replay_keeps(n2, e0);
        lemma_step_congruent(m1, m2, evs.last());
        lemma_step_keeps(m1, evs.last());
        lemma_step_keeps(m2, evs.last());
        if exists|i: int| 0 <= i < evs.len() && resets_lease(#[trigger] evs[i], n1.id) {
            let i = choose|i: int| 0 <= i < evs.len() && resets_lease(#[trigger] evs[i], n1.id);
            if i < evs.len() - 1 {
                assert(e0[i] == evs[i]);
                assert(exists|j: int| 0 <= j < e0.len() && resets_lease(#[trigger] e0[j], n1.id));
            }
        }
    }
}

/// Without an event that sets them, a row's lease fields are what they were,
/// or reopened once some event reopens the row and it had not failed.
proof fn lemma_lease_without_reset(n: ProjView, evs: Seq<ProjEvent>)
    requires
        forall|i: int| 0 <= i < evs.len() ==> !resets_lease(#[trigger] evs[i], n.id),
    ensures
        lease_part(node_replay(n, evs)) == (if (exists|i: int| 0 <= i < evs.len() && reopens(#[trigger] evs[i], n.id)) {
            if n.task_state != Some(TaskState::Failed) {
                lease_part(released(n, TaskState::Ready, true))
            } else {
                lease_part(n)
            }
        } else {
            lease_part(n)
        }),
    decreases evs.len(),
{
    if evs.len() > 0 {
        let e0 = evs.drop_last();
        assert forall|i: int| 0 <= i < e0.len() implies !resets_lease(#[trigger] e0[i], n.id) by {
            assert(e0[i] == evs[i]);
        }
        lemma_lease_without_reset(n, e0);
        let m = node_replay(n, e0);
        lemma_replay_keeps(n, e0);
        lemma_step_keeps(m, evs.last());
        assert(!resets_lease(evs[evs.len() - 1], n.id));
        let before = exists|i: int| 0 <= i < e0.len() && reopens(#[trigger] e0[i], n.id);
        let after = exists|i: int| 0 <= i < evs.len() && reopens(#[trigger] evs[i], n.id);
        if before {
            let i = choose|i: int| 0 <= i < e0.len() && reopens(#[trigger] e0[i], n.id);
            assert(evs[i] == e0[i]);
        }
        if after && !before {
            let i = choose|i: int| 0 <= i < evs.len() && reopens(#[trigger] evs[i], n.id);
            if i < evs.len() - 1 {
                assert(e0[i] == evs[i]);
            }
            assert(reopens(evs.last(), n.id));
        }
        if !after {
            assert(!reopens(evs[evs.len() - 1], n.id));
        }
    }
}

/// The scope state after the events: the last one that sets it decides;
/// without one it is unchanged.
proof fn lemma_scope_replay(n1: ProjView, n2: ProjView, evs: Seq<ProjEvent>)
    requires
        n1.id == n2.id,
    ensures
        (exists|i: int| 0 <= i < evs.len() && sets_scope(#[trigger] evs[i], n1.id)) ==> node_replay(n1, evs).scope_state
            == node_replay(n2, evs).scope_state,
        (forall|i: int| 0 <= i < evs.len() ==> !sets_scope(#[trigger] evs[i], n1.id)) ==> node_replay(n1, evs).scope_state
            == n1.scope_state,
    decreases evs.len(),
{
    if evs.len() > 0 {
        let e0 = evs.drop_last();
        lemma_scope_replay(n1, n2, e0);
        let m1 = node_replay(n1, e0);
        let m2 = node_replay(n2, e0);
        lemma_replay_keeps(n1, e0);
        lemma_replay_keeps(n2, e0);
        lemma_step_congruent(m1, m2, evs.last());
        lemma_step_keeps(m1, evs.last());
        if exists|i: int| 0 <= i < evs.len() && sets_scope(#[trigger] evs[i], n1.id) {
            let i = choose|i: int| 0 <= i < evs.len() && sets_scope(#[trigger] evs[i], n1.id);
            if i < evs.len() - 1 {
                assert(e0[i] == evs[i]);
                assert(exists|j: int| 0 <= j < e0.len() && sets_scope(#[trigger] e0[j], n1.id));
            }
        }
        if forall|i: int| 0 <= i < evs.len() ==> !sets_scope(#[trigger] evs[i], n1.id) {
            assert forall|i: int| 0 <= i < e0.len() implies !sets_scope(#[trigger] e0[i], n1.id) by {
                assert(e0[i] == evs[i]);
            }
            assert(!sets_scope(evs[evs.len() - 1], n1.id));
        }
    }
}

/// The replan mark after the events: set by any event that marks the row.
proof fn lemma_replan_replay(n: ProjView, evs: Seq<ProjEvent>)
    ensures
        node_replay(n, evs).needs_replan == (n.needs_replan || exists|i: int|
            0 <= i < evs.len() && (#[trigger] evs[i]).kind@ == "contract.impact_marked"@ && marks(evs[i], n.id)),
    decreases evs.len(),
{
    if evs.len() > 0 {
        let e0 = evs.drop_last();
        lemma_replan_replay(n, e0);
        let m = node_replay(n, e0);
        lemma_replay_keeps(n, e0);
        lemma_step_keeps(m, evs.last());
        let before = exists|i: int| 0 <= i < e0.len() && (#[trigger] e0[i]).kind@ == "contract.impact_marked"@ && marks(e0[i], n.id);
        if before {
            let i = choose|i: int| 0 <= i < e0.len() && (#[trigger] e0[i]).kind@ == "contract.impact_marked"@ && marks(e0[i], n.id);
            assert(evs[i] == e0[i]);
        }
        if exists|i: int| 0 <= i < evs.len() && (#[trigger] evs[i]).kind@ == "contract.impact_marked"@ && marks(evs[i], n.id) {
            let i = choose|i: int| 0 <= i < evs.len() && (#[trigger] evs[i]).kind@ == "contract.impact_marked"@ && marks(evs[i], n.id);
            if i < evs.len() - 1 {
                assert(e0[i] == evs[i]);
            }
        }
    }
}

/// Replaying a reset row, resetting the result and replaying again gives the
/// same row.
proof fn lemma_row_rebuild_idempotent(x: ProjView, evs: Seq<ProjEvent>)
    ensures
        node_replay(baseline(node_replay(baseline(x), evs)), evs) == node_replay(baseline(x), evs),
{
    let y = baseline(x);
    let z = node_replay(y, evs);
    let w = baseline(z);
    lemma_replay_keeps(y, evs);
    lemma_replay_keeps(w, evs);
    assert(w.id == y.id);
    lemma_lease_reset_forgets(w, y, evs);
    if !(exists|i: int| 0 <= i < evs.len() && resets_lease(#[trigger] evs[i], y.id)) {
        lemma_lease_without_reset(y, evs);
        lemma_lease_without_reset(w, evs);
    }
    lemma_scope_replay(w, y, evs);
    lemma_scope_replay(y, w, evs);
    lemma_replan_replay(w, evs);
    lemma_replan_replay(y, evs);
    assert(lease_part(node_replay(w, evs)) == lease_part(z));
    assert(node_replay(w, evs).scope_state == z.scope_state);
}

/// Rebuilding is idempotent: rebuilding the rows a rebuild produced, from
/// the same events, gives the same rows. With
/// `lemma_rebuild_forgets_projection`, rows that a rebuild produced and
/// whose projection was then damaged are restored by a rebuild.
pub proof fn lemma_rebuild_idempotent(nodes: Seq<ProjView>, edges: Seq<(String, String)>, evs: Seq<ProjEvent>)
    ensures
        rebuilt(rebuilt(nodes, edges, evs), edges, evs) == rebuilt(nodes, edges, evs),
{
    let base = nodes.map_values(|n: ProjView| baseline(n));
    let p = replay(base, evs);
    lemma_replay_rowwise(base, evs);
    let r = recompute(p, edges);
    let base2 = r.map_values(|n: ProjView| baseline(n));
    lemma_replay_rowwise(base2, evs);
    let p2 = replay(base2, evs);
    assert forall|k: int| 0 <= k < p.len() implies #[trigger] p2[k] == p[k] by {
        assert(r[k] == recomputed_node(p, edges, p[k]));
        assert(base2[k] == baseline(r[k]));
        assert(baseline(r[k]) == baseline(p[k]));
        assert(p[k] == node_replay(baseline(nodes[k]), evs));
        lemma_row_rebuild_idempotent(nodes[k], evs);
    }
    assert(p2 =~= p);
}

/// A snapshot record shows a row: same id, kind, task state and path.
pub open spec fn mirrors_node(r: NodeRecord, v: ProjView) -> bool {
    r.0@ == v.id && r.1@ == v.kind && r.2 == v.task_state && r.3@ == v.path
}

/// A package entry of a snapshot shows a package row: same path, and the
/// scope state the row stores by name.
pub open spec fn mirrors_package(pk: (String, String, ScopeState), v: ProjView) -> bool {
    v.kind == "package"@ && pk.1@ == v.path && scope_state_name(pk.2) == v.scope_state
}

/// The snapshot (`nodes`, `packages`) shows the rows `rows`: node by node,
/// and with one package entry for each package row and a package row for
/// each entry.
pub open spec fn snapshot_mirrors(
    nodes: Seq<NodeRecord>,
    packages: Seq<(String, String, ScopeState)>,
    rows: Seq<ProjView>,
) -> bool {
    &&& nodes.len() == rows.len()
    &&& forall|k: int| 0 <= k < rows.len() ==> #[trigger] mirrors_node(nodes[k], rows[k])
    &&& forall|p: int|
        0 <= p < packages.len() ==> exists|k: int| 0 <= k < rows.len() && #[trigger] mirrors_package(#[trigger] packages[p], rows[k])
    &&& forall|k: int|
        0 <= k < rows.len() && (#[trigger] rows[k]).kind == "package"@ ==> exists|p: int|
            0 <= p < packages.len() && #[trigger] mirrors_package(packages[p], rows[k])
}

/// The two forms of the ready rule agree: on a snapshot that shows the
/// rows, with unique ids and a stored state for every task, a node is ready
/// by the snapshot rule exactly when it is a task in todo or ready that the
/// ready recompute makes ready.
pub proof fn lemma_ready_rules_agree(
    nodes: Seq<NodeRecord>,
    edges: Seq<(String, String)>,
    packages: Seq<(String, String, ScopeState)>,
    rows: Seq<ProjView>,
)
    requires
        snapshot_mirrors(nodes, packages, rows),
        ids_unique(rows),
        forall|k: int| 0 <= k < rows.len() && (#[trigger] rows[k]).kind == "task"@ ==> rows[k].task_state is Some,
    ensures
        forall|k: int|
            0 <= k < rows.len() ==> ((#[trigger] rows[k]).kind == "task"@ && claimable_state(rows[k].task_state)
                && should_ready(rows, edges, rows[k])) == snapshot_ready(nodes, edges, packages, nodes[k]),
{
    assert forall|k: int|
        0 <= k < rows.len() implies ((#[trigger] rows[k]).kind == "task"@ && claimable_state(rows[k].task_state)
            && should_ready(rows, edges, rows[k])) == snapshot_ready(nodes, edges, packages, nodes[k]) by {
        let n = nodes[k];
        assert(mirrors_node(nodes[k], rows[k]));
        // upstream tasks
        let up_rows = upstream_done(rows, edges, rows[k].id);
        let up_snap = forall|e: int|
            0 <= e < edges.len() && (#[trigger] edges[e]).1@ == n.0@ ==> !upstream_blocks(nodes, edges[e].0@);
        assert(up_rows == up_snap) by {
            if up_rows {
                assert forall|e: int| 0 <= e < edges.len() && (#[trigger] edges[e]).1@ == n.0@ implies !upstream_blocks(
                    nodes,
                    edges[e].0@,
                ) by {
                    if upstream_blocks(nodes, edges[e].0@) {
                        let j = choose|j: int|
                            0 <= j < nodes.len() && task_with_id(#[trigger] nodes[j], edges[e].0@) && (forall|m: int|
                                0 <= m < j ==> !task_with_id(#[trigger] nodes[m], edges[e].0@)) && nodes[j].2.is_some()
                                && nodes[j].2 != Some(TaskState::Done);
                        assert(mirrors_node(nodes[j], rows[j]));
                    }
                }
            }
            if up_snap {
                assert forall|e: int, u: int|
                    0 <= e < edges.len() && 0 <= u < rows.len() && (#[trigger] edges[e]).1@ == rows[k].id && (#[trigger] rows[u]).id
                        == edges[e].0@ && rows[u].kind == "task"@ implies rows[u].task_state == Some(TaskState::Done) by {
                    assert(mirrors_node(nodes[u], rows[u]));
                    assert(task_with_id(nodes[u], edges[e].0@));
                    assert forall|m: int| 0 <= m < u implies !task_with_id(#[trigger] nodes[m], edges[e].0@) by {
                        assert(mirrors_node(nodes[m], rows[m]));
                        assert(rows[m].id != rows[u].id);
                    }
                    if rows[u].task_state != Some(TaskState::Done) {
                        assert(upstream_blocks(nodes, edges[e].0@));
                    }
                }
            }
        }
        // restricting packages
        let sc_rows = unrestricted(rows, rows[k].path);
        let sc_snap = forall|p: int|
            0 <= p < packages.len() && dotted_under(n.3@, (#[trigger] packages[p]).1@) ==> !scope_restricts(packages[p].2);
        assert(sc_rows == sc_snap) by {
            reveal_strlit("active");
            if sc_rows {
                assert forall|p: int|
                    0 <= p < packages.len() && dotted_under(n.3@, (#[trigger] packages[p]).1@) implies !scope_restricts(
                    packages[p].2,
                ) by {
                    let q = choose|q: int| 0 <= q < rows.len() && #[trigger] mirrors_package(packages[p], rows[q]);
                    lemma_names_roundtrip(TaskState::Todo, packages[p].2, PlanState::Draft);
                    if scope_restricts(packages[p].2) {
                        assert(rows[q].scope_state != "active"@);
                    }
                }
            }
            if sc_snap {
                assert forall|q: int|
                    0 <= q < rows.len() && (#[trigger] rows[q]).kind == "package"@ && rows[q].scope_state != "active"@
                        implies !dotted_under(rows[k].path, rows[q].path) by {
                    let p = choose|p: int| 0 <= p < packages.len() && #[trigger] mirrors_package(packages[p], rows[q]);
                    assert(scope_state_name(ScopeState::Active) == "active"@);
                    assert(packages[p].2 != ScopeState::Active);
                }
            }
        }
    }
}

} // verus!
