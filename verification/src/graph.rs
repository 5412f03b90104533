//! Graph publish validation and the helpers around publishing.
use vstd::prelude::*;
use crate::dag::{edge_in, edges_within, is_cycle, is_topo_order, order_or_cycle, lemma_order_excludes_cycle};
use crate::ready::{compute_ready, ready_rule, ReadyInput, claimable_state};
use crate::state_machine::{ScopeState, TaskState};
use crate::text::{chars_eq, chars_of, chars_push, chars_concat, chars_slice, chars_starts_with, contains_string, string_of, str_eq, views, insert_sorted, strictly_sorted};
use crate::write_scope::{scopes_conflict, scope_lists_conflict, trim_white, trim_chars};

verus! {

/// One node of a publish: a package or a task.
#[derive(Debug, Clone)]
pub struct NodeDraft {
    pub id: String,
    pub parent_id: Option<String>,
    /// `"package"` or `"task"`.
    pub kind: String,
    pub title: String,
    pub layer: Option<String>,
    pub role: Option<String>,
    /// The node spec, as JSON text; carried, never read here.
    pub spec: String,
    pub write_scope: Vec<String>,
    pub required_caps: Vec<String>,
    pub validators: Vec<String>,
    /// The artifact id each declared input names (empty when an input names
    /// none); `None` when the inputs are not a list.
    pub inputs: Option<Vec<String>>,
    pub max_attempts: i32,
    pub priority: i32,
    /// Materialized path; when absent it is derived from the parent.
    pub path: Option<String>,
}

/// A dependency edge `from → to`.
#[derive(Debug, Clone, PartialEq, Eq)]
pub struct EdgeDraft {
    pub from: String,
    pub to: String,
}

/// A graph publish: the version it is based on, and the changes.
#[derive(Debug, Clone)]
pub struct PublishInput {
    pub base_version: i64,
    pub summary: String,
    pub upsert_nodes: Vec<NodeDraft>,
    pub add_edges: Vec<EdgeDraft>,
    pub remove_nodes: Vec<String>,
}

/// A rule that a publish breaks.
#[derive(Debug, Clone)]
pub enum GraphViolation {
    Cycle { path: Vec<String> },
    DanglingDep { edge: EdgeDraft },
    DuplicateId { id: String },
    TypeInvariant { id: String, message: String },
    WriteConflict { nodes: Vec<String>, scope: String },
    MissingInput { id: String, message: String },
    ValidatorUnregistered { id: String, validator: String },
    UnknownRemove { id: String },
    SelfEdge { id: String },
    OrphanParent { id: String, parent_id: String },
}

/// Every violation of a publish, in the order the rules are checked.
#[derive(Debug, Clone)]
pub struct ValidationReport {
    pub violations: Vec<GraphViolation>,
}

/// A node that already stands in the graph.
#[derive(Debug, Clone)]
pub struct ExistingNode {
    pub kind: String,
    pub path: String,
    pub parent_id: Option<String>,
    pub write_scope: Vec<String>,
    pub validators: Vec<String>,
    pub task_state: Option<TaskState>,
    pub title: String,
    pub has_attempt_history: bool,
    /// As in [`NodeDraft::inputs`].
    pub inputs: Option<Vec<String>>,
}

/// The graph a publish is validated against. Node ids are unique.
#[derive(Debug, Clone)]
pub struct GraphSnapshot {
    pub version: i64,
    pub nodes: Vec<(String, ExistingNode)>,
    pub edges: Vec<(String, String)>,
    pub registered_validators: Vec<String>,
}

/// The answer to a successful publish.
#[derive(Debug, Clone)]
pub struct PublishResult {
    pub version: i64,
    pub ready_now: Vec<String>,
}

/// A violation, with its strings as character sequences.
pub enum ViolationView {
    Cycle { path: Seq<Seq<char>> },
    DanglingDep { from: Seq<char>, to: Seq<char> },
    DuplicateId { id: Seq<char> },
    TypeInvariant { id: Seq<char>, message: Seq<char> },
    WriteConflict { nodes: Seq<Seq<char>>, scope: Seq<char> },
    MissingInput { id: Seq<char>, message: Seq<char> },
    ValidatorUnregistered { id: Seq<char>, validator: Seq<char> },
    UnknownRemove { id: Seq<char> },
    SelfEdge { id: Seq<char> },
    OrphanParent { id: Seq<char>, parent_id: Seq<char> },
}

impl View for GraphViolation {
    type V = ViolationView;

    open spec fn view(&self) -> ViolationView {
        match self {
            GraphViolation::Cycle { path } => ViolationView::Cycle { path: views(path@) },
            GraphViolation::DanglingDep { edge } => ViolationView::DanglingDep {
                from: edge.from@,
                to: edge.to@,
            },
            GraphViolation::DuplicateId { id } => ViolationView::DuplicateId { id: id@ },
            GraphViolation::TypeInvariant { id, message } => ViolationView::TypeInvariant {
                id: id@,
                message: message@,
            },
            GraphViolation::WriteConflict { nodes, scope } => ViolationView::WriteConflict {
                nodes: views(nodes@),
                scope: scope@,
            },
            GraphViolation::MissingInput { id, message } => ViolationView::MissingInput {
                id: id@,
                message: message@,
            },
            GraphViolation::ValidatorUnregistered { id, validator } => ViolationView::ValidatorUnregistered {
                id: id@,
                validator: validator@,
            },
            GraphViolation::UnknownRemove { id } => ViolationView::UnknownRemove { id: id@ },
            GraphViolation::SelfEdge { id } => ViolationView::SelfEdge { id: id@ },
            GraphViolation::OrphanParent { id, parent_id } => ViolationView::OrphanParent {
                id: id@,
                parent_id: parent_id@,
            },
        }
    }
}

/// The views of a list of violations.
pub open spec fn report_view(vs: Seq<GraphViolation>) -> Seq<ViolationView> {
    vs.map_values(|v: GraphViolation| v@)
}

impl ValidationReport {
    /// No rule is broken.
    pub fn is_ok(&self) -> (r: bool)
        ensures
            r == (self.violations@.len() == 0),
    {
        self.violations.len() == 0
    }
}

/// The validator names known to this release.
pub open spec fn builtin_validator_names() -> Seq<Seq<char>> {
    seq!["scope-diff"@, "cmd"@, "artifact-exists"@, "cargo-check"@, "true"@]
}

/// The validators registered out of the box.
pub fn builtin_validators() -> (r: Vec<String>)
    ensures
        views(r@) == builtin_validator_names(),
{
    let r = vec![
        String::from_str("scope-diff"),
        String::from_str("cmd"),
        String::from_str("artifact-exists"),
        String::from_str("cargo-check"),
        String::from_str("true"),
    ];
    assert(views(r@) =~= builtin_validator_names());
    r
}

/// The decimal digit for `d < 10`.
pub open spec fn digit_char(d: nat) -> char {
    if d == 0 {
        '0'
    } else if d == 1 {
        '1'
    } else if d == 2 {
        '2'
    } else if d == 3 {
        '3'
    } else if d == 4 {
        '4'
    } else if d == 5 {
        '5'
    } else if d == 6 {
        '6'
    } else if d == 7 {
        '7'
    } else if d == 8 {
        '8'
    } else {
        '9'
    }
}

/// The decimal representation of `n`, without leading zeros.
pub open spec fn decimal(n: nat) -> Seq<char>
    decreases n,
{
    if n < 10 {
        seq![digit_char(n)]
    } else {
        decimal(n / 10).push(digit_char(n % 10))
    }
}

fn digit(d: usize) -> (c: char)
    requires
        d < 10,
    ensures
        c == digit_char(d as nat),
{
    if d == 0 {
        '0'
    } else if d == 1 {
        '1'
    } else if d == 2 {
        '2'
    } else if d == 3 {
        '3'
    } else if d == 4 {
        '4'
    } else if d == 5 {
        '5'
    } else if d == 6 {
        '6'
    } else if d == 7 {
        '7'
    } else if d == 8 {
        '8'
    } else {
        '9'
    }
}

/// The decimal digits of `n`.
pub fn decimal_chars(n: usize) -> (r: Vec<char>)
    ensures
        r@ == decimal(n as nat),
    decreases n,
{
    if n < 10 {
        let mut r = Vec::new();
        r.push(digit(n));
        assert(r@ =~= seq![digit_char(n as nat)]);
        r
    } else {
        let mut r = decimal_chars(n / 10);
        r.push(digit(n % 10));
        r
    }
}

/// The part of `s` after its last `c` (all of `s` when it holds none).
pub open spec fn after_last(s: Seq<char>, c: char) -> Seq<char>
    decreases s.len(),
{
    if s.len() == 0 {
        s
    } else if s.last() == c {
        Seq::empty()
    } else {
        after_last(s.drop_last(), c).push(s.last())
    }
}

/// The short form of an id: what follows its last `_`, at most 8 characters.
pub open spec fn short_form(id: Seq<char>) -> Seq<char> {
    let tail = after_last(id, '_');
    if tail.len() <= 8 {
        tail
    } else {
        tail.subrange(0, 8)
    }
}

/// The short form of an id (`nd_01HX...` → the first 8 characters after the last `_`).
pub fn short_id(id: &str) -> (r: String)
    ensures
        r@ == short_form(id@),
{
    let s = chars_of(id);
    let n = s.len();
    let mut j = n;
    assert(s@.subrange(0, n as int) =~= s@);
    assert(s@.subrange(n as int, n as int) =~= Seq::<char>::empty());
    while j > 0 && s[j - 1] != '_'
        invariant
            n == s@.len(),
            j <= n,
            after_last(s@, '_') == after_last(s@.subrange(0, j as int), '_') + s@.subrange(j as int, n as int),
        decreases j,
    {
        proof {
            let pre = s@.subrange(0, j as int);
            assert(pre.drop_last() =~= s@.subrange(0, j - 1));
            assert(pre.last() == s@[j - 1]);
            assert(after_last(pre, '_') == after_last(s@.subrange(0, j - 1), '_').push(s@[j - 1]));
            assert(after_last(s@.subrange(0, j - 1), '_').push(s@[j - 1]) + s@.subrange(j as int, n as int)
                =~= after_last(s@.subrange(0, j - 1), '_') + s@.subrange(j - 1, n as int));
        }
        j = j - 1;
    }
    proof {
        let pre = s@.subrange(0, j as int);
        if j > 0 {
            assert(pre.last() == s@[j - 1]);
        }
        assert(after_last(pre, '_') =~= Seq::<char>::empty());
        assert(after_last(s@, '_') =~= s@.subrange(j as int, n as int));
    }
    let end = if n - j <= 8 {
        n
    } else {
        j + 8
    };
    let t = chars_slice(&s, j, end);
    proof {
        let tail = s@.subrange(j as int, n as int);
        if tail.len() > 8 {
            assert(t@ =~= tail.subrange(0, 8));
        } else {
            assert(t@ =~= tail);
        }
    }
    string_of(&t)
}


proof fn lemma_report_push(vs: Seq<GraphViolation>, v: GraphViolation)
    ensures
        report_view(vs.push(v)) == report_view(vs).push(v@),
{
    assert(report_view(vs.push(v)) =~= report_view(vs).push(v@));
}

proof fn lemma_prefix_step<A>(s: Seq<A>, i: int)
    requires
        0 <= i < s.len(),
    ensures
        s.subrange(0, i + 1).drop_last() == s.subrange(0, i),
        s.subrange(0, i + 1).last() == s[i],
        s.subrange(0, i + 1).len() == i + 1,
{
    assert(s.subrange(0, i + 1).drop_last() =~= s.subrange(0, i));
}

/// The ids of the snapshot's nodes, in order.
pub open spec fn node_ids(snap: GraphSnapshot) -> Seq<Seq<char>> {
    snap.nodes@.map_values(|p: (String, ExistingNode)| p.0@)
}

/// The snapshot is a map: no id occurs twice.
pub open spec fn snapshot_wf(snap: GraphSnapshot) -> bool {
    forall|a: int, b: int|
        0 <= a < snap.nodes@.len() && 0 <= b < snap.nodes@.len() && a != b ==> (#[trigger] snap.nodes@[a]).0@
            != (#[trigger] snap.nodes@[b]).0@
}

/// Snapshot node `k` has id `id` and is still present.
pub open spec fn present_at(snap: GraphSnapshot, present: Seq<bool>, id: Seq<char>, k: int) -> bool {
    0 <= k < present.len() && k < snap.nodes@.len() && present[k] && snap.nodes@[k].0@ == id
}

/// Some present snapshot node has id `id`.
pub open spec fn present_id(snap: GraphSnapshot, present: Seq<bool>, id: Seq<char>) -> bool {
    exists|k: int| #[trigger] present_at(snap, present, id, k)
}

/// The message of a refused removal.
pub open spec fn attempt_history_message() -> Seq<char> {
    "cannot remove node with attempt history"@
}

/// One removal: an unknown id is reported; a node with attempt history is
/// reported and kept; any other node leaves the graph (with its edges).
pub open spec fn removal_step(snap: GraphSnapshot, st: (Seq<bool>, Seq<ViolationView>), id: Seq<char>) -> (Seq<bool>, Seq<ViolationView>) {
    if present_id(snap, st.0, id) {
        let k = choose|k: int| #[trigger] present_at(snap, st.0, id, k);
        if snap.nodes@[k].1.has_attempt_history {
            (st.0, st.1.push(ViolationView::TypeInvariant { id, message: attempt_history_message() }))
        } else {
            (st.0.update(k, false), st.1)
        }
    } else {
        (st.0, st.1.push(ViolationView::UnknownRemove { id }))
    }
}

/// The removals in order: which snapshot nodes remain, and what was reported.
pub open spec fn removal_phase(snap: GraphSnapshot, removes: Seq<Seq<char>>) -> (Seq<bool>, Seq<ViolationView>)
    decreases removes.len(),
{
    if removes.len() == 0 {
        (Seq::new(snap.nodes@.len(), |k: int| true), Seq::empty())
    } else {
        removal_step(snap, removal_phase(snap, removes.drop_last()), removes.last())
    }
}

proof fn lemma_removal_len(snap: GraphSnapshot, removes: Seq<Seq<char>>)
    ensures
        removal_phase(snap, removes).0.len() == snap.nodes@.len(),
    decreases removes.len(),
{
    if removes.len() > 0 {
        lemma_removal_len(snap, removes.drop_last());
    }
}

/// The present snapshot node with id `id`, if any.
fn find_present(snap: &GraphSnapshot, present: &Vec<bool>, id: &Vec<char>) -> (r: Option<usize>)
    requires
        present@.len() == snap.nodes@.len(),
        snapshot_wf(*snap),
    ensures
        r matches Some(k) ==> present_at(*snap, present@, id@, k as int) && (forall|k2: int|
            #[trigger] present_at(*snap, present@, id@, k2) ==> k2 == k),
        r is None ==> !present_id(*snap, present@, id@),
{
    let mut k: usize = 0;
    while k < snap.nodes.len()
        invariant
            k <= snap.nodes@.len(),
            present@.len() == snap.nodes@.len(),
            snapshot_wf(*snap),
            forall|j: int| 0 <= j < k ==> !#[trigger] present_at(*snap, present@, id@, j),
        decreases snap.nodes.len() - k,
    {
        if present[k] {
            let nid = chars_of(snap.nodes[k].0.as_str());
            if chars_eq(&nid, id) {
                assert(present_at(*snap, present@, id@, k as int));
                proof {
                    assert forall|k2: int| #[trigger] present_at(*snap, present@, id@, k2) implies k2 == k by {
                        if k2 != k {
                            assert(snap.nodes@[k2].0@ != snap.nodes@[k as int].0@);
                        }
                    }
                }
                return Some(k);
            }
        }
        k = k + 1;
    }
    None
}

/// Applies the removals of a publish to the snapshot virtually.
fn removal_pass(snap: &GraphSnapshot, removes: &Vec<String>) -> (r: (Vec<bool>, Vec<GraphViolation>))
    requires
        snapshot_wf(*snap),
    ensures
        (r.0@, report_view(r.1@)) == removal_phase(*snap, views(removes@)),
        r.0@.len() == snap.nodes@.len(),
{
    let mut present: Vec<bool> = Vec::new();
    let mut t: usize = 0;
    while t < snap.nodes.len()
        invariant
            t <= snap.nodes@.len(),
            present@.len() == t,
            forall|k: int| 0 <= k < t ==> present@[k],
        decreases snap.nodes.len() - t,
    {
        present.push(true);
        t = t + 1;
    }
    let mut viols: Vec<GraphViolation> = Vec::new();
    let ghost rs = views(removes@);
    assert(present@ =~= Seq::new(snap.nodes@.len(), |k: int| true));
    assert(rs.subrange(0, 0) =~= Seq::<Seq<char>>::empty());
    assert(report_view(viols@) =~= Seq::<ViolationView>::empty());
    let mut i: usize = 0;
    while i < removes.len()
        invariant
            snapshot_wf(*snap),
            i <= removes@.len(),
            rs == views(removes@),
            present@.len() == snap.nodes@.len(),
            (present@, report_view(viols@)) == removal_phase(*snap, rs.subrange(0, i as int)),
        decreases removes.len() - i,
    {
        proof {
            lemma_prefix_step(rs, i as int);
        }
        let id = chars_of(removes[i].as_str());
        assert(rs[i as int] == removes@[i as int]@);
        match find_present(snap, &present, &id) {
            None => {
                let v = GraphViolation::UnknownRemove { id: removes[i].clone() };
                proof {
                    lemma_report_push(viols@, v);
                }
                viols.push(v);
            },
            Some(k) => {
                if snap.nodes[k].1.has_attempt_history {
                    let v = GraphViolation::TypeInvariant {
                        id: removes[i].clone(),
                        message: String::from_str("cannot remove node with attempt history"),
                    };
                    proof {
                        lemma_report_push(viols@, v);
                    }
                    viols.push(v);
                } else {
                    present.set(k, false);
                }
            },
        }
        i = i + 1;
    }
    assert(rs.subrange(0, removes@.len() as int) =~= rs);
    (present, viols)
}


proof fn lemma_report_concat(a: Seq<GraphViolation>, b: Seq<GraphViolation>)
    ensures
        report_view(a + b) == report_view(a) + report_view(b),
{
    assert(report_view(a + b) =~= report_view(a) + report_view(b));
}

/// The ids of the drafts, in order.
pub open spec fn draft_ids(ups: Seq<NodeDraft>) -> Seq<Seq<char>> {
    ups.map_values(|d: NodeDraft| d.id@)
}

/// One `DuplicateId` for each draft among the first `n` whose id an earlier draft already used.
pub open spec fn dup_viols(ids: Seq<Seq<char>>, n: int) -> Seq<ViolationView>
    decreases n,
{
    if n <= 0 {
        Seq::empty()
    } else {
        dup_viols(ids, n - 1) + if ids.subrange(0, n - 1).contains(ids[n - 1]) {
            seq![ViolationView::DuplicateId { id: ids[n - 1] }]
        } else {
            Seq::empty()
        }
    }
}

/// A kind the graph knows.
pub open spec fn kind_known(k: Seq<char>) -> bool {
    k == "package"@ || k == "task"@
}

/// One `ValidatorUnregistered` per validator among the first `n` that is not registered.
pub open spec fn unregistered_viols(id: Seq<char>, vs: Seq<Seq<char>>, reg: Seq<Seq<char>>, n: int) -> Seq<ViolationView>
    decreases n,
{
    if n <= 0 {
        Seq::empty()
    } else {
        unregistered_viols(id, vs, reg, n - 1) + if !reg.contains(vs[n - 1]) {
            seq![ViolationView::ValidatorUnregistered { id, validator: vs[n - 1] }]
        } else {
            Seq::empty()
        }
    }
}

/// The message for input `i` that names no artifact.
pub open spec fn input_message(i: nat) -> Seq<char> {
    "inputs["@ + decimal(i) + "] missing artifact_id"@
}

/// One `MissingInput` per input among the first `n` that names no artifact.
pub open spec fn missing_input_viols(id: Seq<char>, items: Seq<Seq<char>>, n: int) -> Seq<ViolationView>
    decreases n,
{
    if n <= 0 {
        Seq::empty()
    } else {
        missing_input_viols(id, items, n - 1) + if items[n - 1].len() == 0 {
            seq![ViolationView::MissingInput { id, message: input_message((n - 1) as nat) }]
        } else {
            Seq::empty()
        }
    }
}

/// What one draft breaks: an unknown kind (and nothing else is checked then);
/// otherwise a blank title, a task without write scope, unregistered
/// validators, task inputs naming no artifact, and a parent that is neither
/// in the graph after the removals nor among the drafts.
pub open spec fn draft_viols(snap: GraphSnapshot, present: Seq<bool>, ups: Seq<NodeDraft>, d: NodeDraft) -> Seq<ViolationView> {
    if !kind_known(d.kind@) {
        seq![ViolationView::TypeInvariant { id: d.id@, message: "unknown kind "@ + d.kind@ }]
    } else {
        (if trim_white(d.title@).len() == 0 {
            seq![ViolationView::TypeInvariant { id: d.id@, message: "title must be non-empty"@ }]
        } else {
            Seq::empty()
        }) + (if d.kind@ == "task"@ && d.write_scope@.len() == 0 {
            seq![ViolationView::TypeInvariant { id: d.id@, message: "task must declare write_scope"@ }]
        } else {
            Seq::empty()
        }) + unregistered_viols(
            d.id@,
            views(d.validators@),
            views(snap.registered_validators@),
            d.validators@.len() as int,
        ) + (match d.inputs {
            Some(items) => if d.kind@ == "task"@ {
                missing_input_viols(d.id@, views(items@), items@.len() as int)
            } else {
                Seq::empty()
            },
            None => Seq::empty(),
        }) + (match d.parent_id {
            Some(pid) => if !present_id(snap, present, pid@) && !draft_ids(ups).contains(pid@) {
                seq![ViolationView::OrphanParent { id: d.id@, parent_id: pid@ }]
            } else {
                Seq::empty()
            },
            None => Seq::empty(),
        })
    }
}

/// The violations of the first `n` drafts, draft by draft.
pub open spec fn upsert_viols(snap: GraphSnapshot, present: Seq<bool>, ups: Seq<NodeDraft>, n: int) -> Seq<ViolationView>
    decreases n,
{
    if n <= 0 {
        Seq::empty()
    } else {
        upsert_viols(snap, present, ups, n - 1) + draft_viols(snap, present, ups, ups[n - 1])
    }
}

/// Whether draft `i` reuses the id of an earlier draft.
fn id_seen_before(ups: &Vec<NodeDraft>, i: usize) -> (r: bool)
    requires
        i < ups@.len(),
    ensures
        r == draft_ids(ups@).subrange(0, i as int).contains(ups@[i as int].id@),
{
    let ghost ids = draft_ids(ups@);
    let mut j: usize = 0;
    while j < i
        invariant
            i < ups@.len(),
            j <= i,
            ids == draft_ids(ups@),
            forall|k: int| 0 <= k < j ==> ids[k] != ups@[i as int].id@,
        decreases i - j,
    {
        if ups[j].id == ups[i].id {
            assert(ids.subrange(0, i as int)[j as int] == ups@[i as int].id@);
            return true;
        }
        j = j + 1;
    }
    proof {
        if ids.subrange(0, i as int).contains(ups@[i as int].id@) {
            let k = choose|k: int| 0 <= k < i && ids.subrange(0, i as int)[k] == ups@[i as int].id@;
            assert(ids[k] != ups@[i as int].id@);
        }
    }
    false
}

/// Whether some draft has id `id`.
fn draft_has_id(ups: &Vec<NodeDraft>, id: &String) -> (r: bool)
    ensures
        r == draft_ids(ups@).contains(id@),
{
    let ghost ids = draft_ids(ups@);
    let mut j: usize = 0;
    while j < ups.len()
        invariant
            j <= ups@.len(),
            ids == draft_ids(ups@),
            forall|k: int| 0 <= k < j ==> ids[k] != id@,
        decreases ups.len() - j,
    {
        if ups[j].id == *id {
            assert(ids[j as int] == id@);
            return true;
        }
        j = j + 1;
    }
    false
}

/// The duplicate-id violations of the drafts.
fn duplicate_pass(ups: &Vec<NodeDraft>) -> (r: Vec<GraphViolation>)
    ensures
        report_view(r@) == dup_viols(draft_ids(ups@), ups@.len() as int),
{
    let ghost ids = draft_ids(ups@);
    let mut viols: Vec<GraphViolation> = Vec::new();
    assert(report_view(viols@) =~= Seq::<ViolationView>::empty());
    let mut i: usize = 0;
    while i < ups.len()
        invariant
            i <= ups@.len(),
            ids == draft_ids(ups@),
            report_view(viols@) == dup_viols(ids, i as int),
        decreases ups.len() - i,
    {
        if id_seen_before(ups, i) {
            let v = GraphViolation::DuplicateId { id: ups[i].id.clone() };
            proof {
                lemma_report_push(viols@, v);
                assert(seq![v@] =~= seq![ViolationView::DuplicateId { id: ids[i as int] }]);
            }
            viols.push(v);
        }
        assert(report_view(viols@) =~= dup_viols(ids, i + 1));
        i = i + 1;
    }
    viols
}

/// The unregistered validators of one draft.
fn unregistered_pass(id: &String, vs: &Vec<String>, reg: &Vec<String>) -> (r: Vec<GraphViolation>)
    ensures
        report_view(r@) == unregistered_viols(id@, views(vs@), views(reg@), vs@.len() as int),
{
    let mut viols: Vec<GraphViolation> = Vec::new();
    assert(report_view(viols@) =~= Seq::<ViolationView>::empty());
    let mut i: usize = 0;
    while i < vs.len()
        invariant
            i <= vs@.len(),
            report_view(viols@) == unregistered_viols(id@, views(vs@), views(reg@), i as int),
        decreases vs.len() - i,
    {
        let known = contains_string(reg, &vs[i]);
        proof {
            if views(reg@).contains(views(vs@)[i as int]) {
                let k = choose|k: int| 0 <= k < views(reg@).len() && views(reg@)[k] == views(vs@)[i as int];
                assert(reg@[k]@ == vs@[i as int]@);
            }
            if known {
                let k = choose|k: int| 0 <= k < reg@.len() && #[trigger] reg@[k]@ == vs@[i as int]@;
                assert(views(reg@)[k] == views(vs@)[i as int]);
            }
        }
        if !known {
            let v = GraphViolation::ValidatorUnregistered { id: id.clone(), validator: vs[i].clone() };
            proof {
                lemma_report_push(viols@, v);
            }
            viols.push(v);
        }
        assert(report_view(viols@) =~= unregistered_viols(id@, views(vs@), views(reg@), i + 1));
        i = i + 1;
    }
    viols
}

/// The message for input `i` that names no artifact.
fn input_message_string(i: usize) -> (r: String)
    ensures
        r@ == input_message(i as nat),
{
    let a = chars_of("inputs[");
    let b = decimal_chars(i);
    let c = chars_of("] missing artifact_id");
    let ab = chars_concat(&a, &b);
    let abc = chars_concat(&ab, &c);
    string_of(&abc)
}

/// The inputs of one task draft that name no artifact.
fn missing_input_pass(id: &String, items: &Vec<String>) -> (r: Vec<GraphViolation>)
    ensures
        report_view(r@) == missing_input_viols(id@, views(items@), items@.len() as int),
{
    let mut viols: Vec<GraphViolation> = Vec::new();
    assert(report_view(viols@) =~= Seq::<ViolationView>::empty());
    let mut i: usize = 0;
    while i < items.len()
        invariant
            i <= items@.len(),
            report_view(viols@) == missing_input_viols(id@, views(items@), i as int),
        decreases items.len() - i,
    {
        assert(views(items@)[i as int] == items@[i as int]@);
        if items[i].unicode_len() == 0 {
            let v = GraphViolation::MissingInput { id: id.clone(), message: input_message_string(i) };
            proof {
                lemma_report_push(viols@, v);
            }
            viols.push(v);
        }
        assert(report_view(viols@) =~= missing_input_viols(id@, views(items@), i + 1));
        i = i + 1;
    }
    viols
}

/// What draft `i` breaks.
fn draft_pass(snap: &GraphSnapshot, present: &Vec<bool>, ups: &Vec<NodeDraft>, i: usize) -> (r: Vec<GraphViolation>)
    requires
        i < ups@.len(),
        present@.len() == snap.nodes@.len(),
        snapshot_wf(*snap),
    ensures
        report_view(r@) == draft_viols(*snap, present@, ups@, ups@[i as int]),
{
    let d = &ups[i];
    let is_task = str_eq(d.kind.as_str(), "task");
    let is_package = str_eq(d.kind.as_str(), "package");
    let mut viols: Vec<GraphViolation> = Vec::new();
    if !is_task && !is_package {
        let v = GraphViolation::TypeInvariant {
            id: d.id.clone(),
            message: String::from_str("unknown kind ").concat(d.kind.as_str()),
        };
        viols.push(v);
        assert(report_view(viols@) =~= seq![v@]);
        return viols;
    }
    let ghost empty = Seq::<ViolationView>::empty();
    let ghost p1 = if trim_white(d.title@).len() == 0 {
        seq![ViolationView::TypeInvariant { id: d.id@, message: "title must be non-empty"@ }]
    } else {
        empty
    };
    let ghost p2 = if d.kind@ == "task"@ && d.write_scope@.len() == 0 {
        seq![ViolationView::TypeInvariant { id: d.id@, message: "task must declare write_scope"@ }]
    } else {
        empty
    };
    let title = trim_chars(&chars_of(d.title.as_str()));
    if title.len() == 0 {
        let v = GraphViolation::TypeInvariant {
            id: d.id.clone(),
            message: String::from_str("title must be non-empty"),
        };
        viols.push(v);
    }
    assert(report_view(viols@) =~= p1);
    if is_task && d.write_scope.len() == 0 {
        let v = GraphViolation::TypeInvariant {
            id: d.id.clone(),
            message: String::from_str("task must declare write_scope"),
        };
        proof {
            lemma_report_push(viols@, v);
        }
        viols.push(v);
    }
    assert(report_view(viols@) =~= p1 + p2);
    let mut un = unregistered_pass(&d.id, &d.validators, &snap.registered_validators);
    proof {
        lemma_report_concat(viols@, un@);
    }
    viols.append(&mut un);
    let ghost dd = ups@[i as int];
    let ghost p4 = match dd.inputs {
        Some(items) => if d.kind@ == "task"@ {
            missing_input_viols(d.id@, views(items@), items@.len() as int)
        } else {
            empty
        },
        None => empty,
    };
    let ghost before4 = report_view(viols@);
    match &d.inputs {
        Some(items) => {
            if is_task {
                let mut mi = missing_input_pass(&d.id, items);
                proof {
                    lemma_report_concat(viols@, mi@);
                }
                viols.append(&mut mi);
            }
        },
        None => {},
    }
    assert(report_view(viols@) =~= before4 + p4);
    let ghost p5 = match dd.parent_id {
        Some(pid) => if !present_id(*snap, present@, pid@) && !draft_ids(ups@).contains(pid@) {
            seq![ViolationView::OrphanParent { id: d.id@, parent_id: pid@ }]
        } else {
            empty
        },
        None => empty,
    };
    let ghost before5 = report_view(viols@);
    match &d.parent_id {
        Some(pid) => {
            let pchars = chars_of(pid.as_str());
            let in_graph = find_present(snap, present, &pchars);
            if in_graph.is_none() && !draft_has_id(ups, pid) {
                let v = GraphViolation::OrphanParent { id: d.id.clone(), parent_id: pid.clone() };
                proof {
                    lemma_report_push(viols@, v);
                }
                viols.push(v);
            }
        },
        None => {},
    }
    assert(report_view(viols@) =~= before5 + p5);
    viols
}


/// Where a node of the merged graph comes from: a snapshot node, or a draft.
#[derive(Debug, Clone, Copy, PartialEq, Eq, Structural)]
pub enum NodeSrc {
    Snapshot(usize),
    Draft(usize),
}

/// The id of a merged node.
pub open spec fn src_id(snap: GraphSnapshot, ups: Seq<NodeDraft>, s: NodeSrc) -> Seq<char> {
    match s {
        NodeSrc::Snapshot(k) => snap.nodes@[k as int].0@,
        NodeSrc::Draft(i) => ups[i as int].id@,
    }
}

/// The kind of a merged node.
pub open spec fn src_kind(snap: GraphSnapshot, ups: Seq<NodeDraft>, s: NodeSrc) -> Seq<char> {
    match s {
        NodeSrc::Snapshot(k) => snap.nodes@[k as int].1.kind@,
        NodeSrc::Draft(i) => ups[i as int].kind@,
    }
}

/// The write scopes of a merged node.
pub open spec fn src_scopes(snap: GraphSnapshot, ups: Seq<NodeDraft>, s: NodeSrc) -> Seq<Seq<char>> {
    match s {
        NodeSrc::Snapshot(k) => views(snap.nodes@[k as int].1.write_scope@),
        NodeSrc::Draft(i) => views(ups[i as int].write_scope@),
    }
}

/// The source points at an existing snapshot node or draft.
pub open spec fn src_valid(snap: GraphSnapshot, ups: Seq<NodeDraft>, s: NodeSrc) -> bool {
    match s {
        NodeSrc::Snapshot(k) => k < snap.nodes@.len(),
        NodeSrc::Draft(i) => i < ups.len(),
    }
}

/// The present snapshot nodes among the first `n`, in snapshot order.
pub open spec fn present_entries(present: Seq<bool>, n: int) -> Seq<NodeSrc>
    decreases n,
{
    if n <= 0 {
        Seq::empty()
    } else {
        present_entries(present, n - 1) + if present[n - 1] {
            seq![NodeSrc::Snapshot((n - 1) as usize)]
        } else {
            Seq::empty()
        }
    }
}

/// Merged node `p` has id `id`.
pub open spec fn entry_at(snap: GraphSnapshot, ups: Seq<NodeDraft>, es: Seq<NodeSrc>, id: Seq<char>, p: int) -> bool {
    0 <= p < es.len() && src_id(snap, ups, es[p]) == id
}

/// Some merged node has id `id`.
pub open spec fn has_entry(snap: GraphSnapshot, ups: Seq<NodeDraft>, es: Seq<NodeSrc>, id: Seq<char>) -> bool {
    exists|p: int| #[trigger] entry_at(snap, ups, es, id, p)
}

/// Merging draft `i`: a draft of unknown kind is dropped; a draft whose id is
/// already in the graph replaces that node in place; any other is appended.
pub open spec fn merge_step(snap: GraphSnapshot, ups: Seq<NodeDraft>, es: Seq<NodeSrc>, i: int) -> Seq<NodeSrc> {
    if !kind_known(ups[i].kind@) {
        es
    } else if has_entry(snap, ups, es, ups[i].id@) {
        es.update(choose|p: int| #[trigger] entry_at(snap, ups, es, ups[i].id@, p), NodeSrc::Draft(i as usize))
    } else {
        es.push(NodeSrc::Draft(i as usize))
    }
}

/// The graph's nodes after the removals and the first `n` drafts.
pub open spec fn merged(snap: GraphSnapshot, present: Seq<bool>, ups: Seq<NodeDraft>, n: int) -> Seq<NodeSrc>
    decreases n,
{
    if n <= 0 {
        present_entries(present, present.len() as int)
    } else {
        merge_step(snap, ups, merged(snap, present, ups, n - 1), n - 1)
    }
}

/// Merged nodes point at real sources and have distinct ids.
pub open spec fn entries_wf(snap: GraphSnapshot, ups: Seq<NodeDraft>, es: Seq<NodeSrc>) -> bool {
    &&& forall|p: int| 0 <= p < es.len() ==> src_valid(snap, ups, #[trigger] es[p])
    &&& forall|a: int, b: int|
        0 <= a < es.len() && 0 <= b < es.len() && a != b ==> src_id(snap, ups, #[trigger] es[a])
            != src_id(snap, ups, #[trigger] es[b])
}

/// The id of a merged node.
fn src_id_ref<'a>(snap: &'a GraphSnapshot, ups: &'a Vec<NodeDraft>, s: NodeSrc) -> (r: &'a String)
    requires
        src_valid(*snap, ups@, s),
    ensures
        r@ == src_id(*snap, ups@, s),
{
    match s {
        NodeSrc::Snapshot(k) => &snap.nodes[k].0,
        NodeSrc::Draft(i) => &ups[i].id,
    }
}

/// The merged node with id `id`, if any.
fn find_entry(snap: &GraphSnapshot, ups: &Vec<NodeDraft>, es: &Vec<NodeSrc>, id: &String) -> (r: Option<usize>)
    requires
        entries_wf(*snap, ups@, es@),
    ensures
        r matches Some(p) ==> entry_at(*snap, ups@, es@, id@, p as int) && forall|p2: int|
            #[trigger] entry_at(*snap, ups@, es@, id@, p2) ==> p2 == p,
        r is None ==> !has_entry(*snap, ups@, es@, id@),
{
    let mut p: usize = 0;
    while p < es.len()
        invariant
            p <= es@.len(),
            entries_wf(*snap, ups@, es@),
            forall|q: int| 0 <= q < p ==> !#[trigger] entry_at(*snap, ups@, es@, id@, q),
        decreases es.len() - p,
    {
        if *src_id_ref(snap, ups, es[p]) == *id {
            assert(entry_at(*snap, ups@, es@, id@, p as int));
            proof {
                assert forall|p2: int| #[trigger] entry_at(*snap, ups@, es@, id@, p2) implies p2 == p by {
                    if p2 != p {
                        assert(src_id(*snap, ups@, es@[p2]) != src_id(*snap, ups@, es@[p as int]));
                    }
                }
            }
            return Some(p);
        }
        p = p + 1;
    }
    None
}

/// Merges the drafts one by one, collecting what each breaks.
fn upsert_pass(snap: &GraphSnapshot, present: &Vec<bool>, ups: &Vec<NodeDraft>) -> (r: (Vec<GraphViolation>, Vec<NodeSrc>))
    requires
        present@.len() == snap.nodes@.len(),
        snapshot_wf(*snap),
    ensures
        report_view(r.0@) == upsert_viols(*snap, present@, ups@, ups@.len() as int),
        r.1@ == merged(*snap, present@, ups@, ups@.len() as int),
        entries_wf(*snap, ups@, r.1@),
{
    let mut es: Vec<NodeSrc> = Vec::new();
    let mut k: usize = 0;
    while k < present.len()
        invariant
            k <= present@.len(),
            present@.len() == snap.nodes@.len(),
            snapshot_wf(*snap),
            es@ == present_entries(present@, k as int),
            forall|p: int| 0 <= p < es@.len() ==> (#[trigger] es@[p]) is Snapshot && es@[p]->Snapshot_0 < k,
            entries_wf(*snap, ups@, es@),
        decreases present.len() - k,
    {
        if present[k] {
            let ghost before = es@;
            es.push(NodeSrc::Snapshot(k));
            proof {
                assert forall|a: int, b: int|
                    0 <= a < es@.len() && 0 <= b < es@.len() && a != b implies src_id(*snap, ups@, #[trigger] es@[a])
                        != src_id(*snap, ups@, #[trigger] es@[b]) by {
                    let ka = es@[a]->Snapshot_0 as int;
                    let kb = es@[b]->Snapshot_0 as int;
                    if a < before.len() && b < before.len() {
                        assert(es@[a] == before[a] && es@[b] == before[b]);
                    } else if a < before.len() {
                        assert(es@[a] == before[a]);
                        assert(ka < k);
                        assert(snap.nodes@[ka].0@ != snap.nodes@[kb].0@);
                    } else {
                        assert(es@[b] == before[b]);
                        assert(kb < k);
                        assert(snap.nodes@[ka].0@ != snap.nodes@[kb].0@);
                    }
                }
            }
        }
        assert(es@ =~= present_entries(present@, k + 1));
        k = k + 1;
    }
    let mut viols: Vec<GraphViolation> = Vec::new();
    assert(report_view(viols@) =~= Seq::<ViolationView>::empty());
    let mut i: usize = 0;
    while i < ups.len()
        invariant
            i <= ups@.len(),
            present@.len() == snap.nodes@.len(),
            snapshot_wf(*snap),
            report_view(viols@) == upsert_viols(*snap, present@, ups@, i as int),
            es@ == merged(*snap, present@, ups@, i as int),
            entries_wf(*snap, ups@, es@),
        decreases ups.len() - i,
    {
        let mut dv = draft_pass(snap, present, ups, i);
        proof {
            lemma_report_concat(viols@, dv@);
        }
        viols.append(&mut dv);
        let known = str_eq(ups[i].kind.as_str(), "task") || str_eq(ups[i].kind.as_str(), "package");
        if known {
            let ghost before = es@;
            match find_entry(snap, ups, &es, &ups[i].id) {
                Some(p) => {
                    es.set(p, NodeSrc::Draft(i));
                    proof {
                        let q = choose|q: int| #[trigger] entry_at(*snap, ups@, before, ups@[i as int].id@, q);
                        assert(q == p);
                        assert forall|a: int, b: int|
                            0 <= a < es@.len() && 0 <= b < es@.len() && a != b implies src_id(*snap, ups@, #[trigger] es@[a])
                                != src_id(*snap, ups@, #[trigger] es@[b]) by {
                            if a != p && b != p {
                                assert(es@[a] == before[a] && es@[b] == before[b]);
                            } else if a == p {
                                assert(es@[b] == before[b]);
                                assert(src_id(*snap, ups@, before[a]) != src_id(*snap, ups@, before[b]));
                            } else {
                                assert(es@[a] == before[a]);
                                assert(src_id(*snap, ups@, before[a]) != src_id(*snap, ups@, before[b]));
                            }
                        }
                    }
                },
                None => {
                    es.push(NodeSrc::Draft(i));
                    proof {
                        assert forall|a: int, b: int|
                            0 <= a < es@.len() && 0 <= b < es@.len() && a != b implies src_id(*snap, ups@, #[trigger] es@[a])
                                != src_id(*snap, ups@, #[trigger] es@[b]) by {
                            if a < before.len() && b < before.len() {
                                assert(es@[a] == before[a] && es@[b] == before[b]);
                            } else if a < before.len() {
                                assert(es@[a] == before[a]);
                                assert(!entry_at(*snap, ups@, before, ups@[i as int].id@, a));
                            } else {
                                assert(es@[b] == before[b]);
                                assert(!entry_at(*snap, ups@, before, ups@[i as int].id@, b));
                            }
                        }
                    }
                },
            }
        }
        i = i + 1;
    }
    (viols, es)
}


/// A new edge is taken into the graph: not a self edge, and both ends exist after the merge.
pub open spec fn edge_accepted(snap: GraphSnapshot, ups: Seq<NodeDraft>, es: Seq<NodeSrc>, e: EdgeDraft) -> bool {
    e.from@ != e.to@ && has_entry(snap, ups, es, e.from@) && has_entry(snap, ups, es, e.to@)
}

/// What the first `n` new edges break: a self edge, or an end that does not exist.
pub open spec fn edge_viols(snap: GraphSnapshot, ups: Seq<NodeDraft>, es: Seq<NodeSrc>, adds: Seq<EdgeDraft>, n: int) -> Seq<ViolationView>
    decreases n,
{
    if n <= 0 {
        Seq::empty()
    } else {
        let e = adds[n - 1];
        edge_viols(snap, ups, es, adds, n - 1) + if e.from@ == e.to@ {
            seq![ViolationView::SelfEdge { id: e.from@ }]
        } else if !has_entry(snap, ups, es, e.from@) || !has_entry(snap, ups, es, e.to@) {
            seq![ViolationView::DanglingDep { from: e.from@, to: e.to@ }]
        } else {
            Seq::empty()
        }
    }
}

/// A snapshot node with id `id` was removed by the publish.
pub open spec fn removed_id(snap: GraphSnapshot, present: Seq<bool>, id: Seq<char>) -> bool {
    exists|k: int| 0 <= k < present.len() && k < snap.nodes@.len() && !present[k] && #[trigger] snap.nodes@[k].0@ == id
}

/// A snapshot edge survives the removals: neither end was removed.
pub open spec fn kept_edge(snap: GraphSnapshot, present: Seq<bool>, e: (String, String)) -> bool {
    !removed_id(snap, present, e.0@) && !removed_id(snap, present, e.1@)
}

/// `a → b` is an edge of the merged graph: both ends exist, and a surviving
/// snapshot edge or an accepted new edge joins them.
pub open spec fn id_edge(
    snap: GraphSnapshot,
    present: Seq<bool>,
    ups: Seq<NodeDraft>,
    es: Seq<NodeSrc>,
    adds: Seq<EdgeDraft>,
    a: Seq<char>,
    b: Seq<char>,
) -> bool {
    &&& has_entry(snap, ups, es, a)
    &&& has_entry(snap, ups, es, b)
    &&& {
        ||| exists|j: int|
            0 <= j < snap.edges@.len() && kept_edge(snap, present, #[trigger] snap.edges@[j]) && snap.edges@[j].0@ == a
                && snap.edges@[j].1@ == b
        ||| exists|j: int|
            0 <= j < adds.len() && edge_accepted(snap, ups, es, #[trigger] adds[j]) && adds[j].from@ == a && adds[j].to@
                == b
    }
}

/// `path` is a simple cycle of the merged graph: it follows edges back to
/// where it started and meets no id twice before that.
pub open spec fn id_cycle(
    snap: GraphSnapshot,
    present: Seq<bool>,
    ups: Seq<NodeDraft>,
    es: Seq<NodeSrc>,
    adds: Seq<EdgeDraft>,
    path: Seq<Seq<char>>,
) -> bool {
    &&& path.len() >= 2
    &&& path[0] == path.last()
    &&& forall|i: int| 0 <= i < path.len() - 1 ==> #[trigger] id_edge(snap, present, ups, es, adds, path[i], path[i + 1])
    &&& forall|i: int, j: int| 0 <= i < j < path.len() - 1 ==> path[i] != path[j]
}

/// `rank` increases along every edge of the merged graph.
pub open spec fn rank_respects(
    snap: GraphSnapshot,
    present: Seq<bool>,
    ups: Seq<NodeDraft>,
    es: Seq<NodeSrc>,
    adds: Seq<EdgeDraft>,
    rank: spec_fn(Seq<char>) -> int,
) -> bool {
    forall|a: Seq<char>, b: Seq<char>| #[trigger] id_edge(snap, present, ups, es, adds, a, b) ==> rank(a) < rank(b)
}

/// The merged graph is acyclic: some ranking of the ids increases along every edge.
pub open spec fn id_ranked(
    snap: GraphSnapshot,
    present: Seq<bool>,
    ups: Seq<NodeDraft>,
    es: Seq<NodeSrc>,
    adds: Seq<EdgeDraft>,
) -> bool {
    exists|rank: spec_fn(Seq<char>) -> int| #[trigger] rank_respects(snap, present, ups, es, adds, rank)
}

/// A ranking that increases along every edge rules out every cycle.
pub proof fn lemma_ranked_has_no_cycle(
    snap: GraphSnapshot,
    present: Seq<bool>,
    ups: Seq<NodeDraft>,
    es: Seq<NodeSrc>,
    adds: Seq<EdgeDraft>,
    path: Seq<Seq<char>>,
)
    requires
        id_ranked(snap, present, ups, es, adds),
    ensures
        !id_cycle(snap, present, ups, es, adds, path),
{
    if id_cycle(snap, present, ups, es, adds, path) {
        let rank = choose|rank: spec_fn(Seq<char>) -> int| #[trigger] rank_respects(snap, present, ups, es, adds, rank);
        assert forall|k: int| 1 <= k < path.len() implies rank(path[0]) < rank(#[trigger] path[k]) by {
            lemma_rank_increases(snap, present, ups, es, adds, path, rank, k);
        }
        assert(rank(path[0]) < rank(path[path.len() - 1]));
    }
}

proof fn lemma_rank_increases(
    snap: GraphSnapshot,
    present: Seq<bool>,
    ups: Seq<NodeDraft>,
    es: Seq<NodeSrc>,
    adds: Seq<EdgeDraft>,
    path: Seq<Seq<char>>,
    rank: spec_fn(Seq<char>) -> int,
    k: int,
)
    requires
        id_cycle(snap, present, ups, es, adds, path),
        forall|a: Seq<char>, b: Seq<char>| #[trigger] id_edge(snap, present, ups, es, adds, a, b) ==> rank(a) < rank(b),
        1 <= k < path.len(),
    ensures
        rank(path[0]) < rank(path[k]),
    decreases k,
{
    assert(id_edge(snap, present, ups, es, adds, path[k - 1], path[(k - 1) + 1]));
    if k > 1 {
        lemma_rank_increases(snap, present, ups, es, adds, path, rank, k - 1);
    }
}

/// Checks the new edges, collecting what they break.
fn edge_pass(snap: &GraphSnapshot, ups: &Vec<NodeDraft>, es: &Vec<NodeSrc>, adds: &Vec<EdgeDraft>) -> (r: Vec<GraphViolation>)
    requires
        entries_wf(*snap, ups@, es@),
    ensures
        report_view(r@) == edge_viols(*snap, ups@, es@, adds@, adds@.len() as int),
{
    let mut viols: Vec<GraphViolation> = Vec::new();
    assert(report_view(viols@) =~= Seq::<ViolationView>::empty());
    let mut i: usize = 0;
    while i < adds.len()
        invariant
            i <= adds@.len(),
            entries_wf(*snap, ups@, es@),
            report_view(viols@) == edge_viols(*snap, ups@, es@, adds@, i as int),
        decreases adds.len() - i,
    {
        let e = &adds[i];
        if e.from == e.to {
            let v = GraphViolation::SelfEdge { id: e.from.clone() };
            proof {
                lemma_report_push(viols@, v);
            }
            viols.push(v);
        } else if find_entry(snap, ups, es, &e.from).is_none() || find_entry(snap, ups, es, &e.to).is_none() {
            let v = GraphViolation::DanglingDep { edge: EdgeDraft { from: e.from.clone(), to: e.to.clone() } };
            proof {
                lemma_report_push(viols@, v);
            }
            viols.push(v);
        }
        assert(report_view(viols@) =~= edge_viols(*snap, ups@, es@, adds@, i + 1));
        i = i + 1;
    }
    viols
}

/// Whether the publish removed the snapshot node with id `id`.
fn is_removed(snap: &GraphSnapshot, present: &Vec<bool>, id: &String) -> (r: bool)
    requires
        present@.len() == snap.nodes@.len(),
    ensures
        r == removed_id(*snap, present@, id@),
{
    let mut k: usize = 0;
    while k < present.len()
        invariant
            k <= present@.len(),
            present@.len() == snap.nodes@.len(),
            forall|j: int| 0 <= j < k ==> !(!present@[j] && #[trigger] snap.nodes@[j].0@ == id@),
        decreases present.len() - k,
    {
        if !present[k] && snap.nodes[k].0 == *id {
            assert(!present@[k as int] && snap.nodes@[k as int].0@ == id@);
            return true;
        }
        k = k + 1;
    }
    false
}

/// The merged graph's edges between node positions: every edge is an
/// `id_edge`, and every `id_edge` appears.
fn build_edges(
    snap: &GraphSnapshot,
    present: &Vec<bool>,
    ups: &Vec<NodeDraft>,
    es: &Vec<NodeSrc>,
    adds: &Vec<EdgeDraft>,
) -> (g: Vec<(usize, usize)>)
    requires
        present@.len() == snap.nodes@.len(),
        entries_wf(*snap, ups@, es@),
    ensures
        edges_within(es@.len() as nat, g@),
        forall|i: int|
            0 <= i < g@.len() ==> id_edge(
                *snap,
                present@,
                ups@,
                es@,
                adds@,
                src_id(*snap, ups@, es@[(#[trigger] g@[i]).0 as int]),
                src_id(*snap, ups@, es@[g@[i].1 as int]),
            ),
        forall|a: Seq<char>, b: Seq<char>|
            #[trigger] id_edge(*snap, present@, ups@, es@, adds@, a, b) ==> exists|i: int|
                0 <= i < g@.len() && src_id(*snap, ups@, es@[(#[trigger] g@[i]).0 as int]) == a && src_id(
                    *snap,
                    ups@,
                    es@[g@[i].1 as int],
                ) == b,
{
    let mut g: Vec<(usize, usize)> = Vec::new();
    let mut j: usize = 0;
    while j < snap.edges.len()
        invariant
            j <= snap.edges@.len(),
            present@.len() == snap.nodes@.len(),
            entries_wf(*snap, ups@, es@),
            edges_within(es@.len() as nat, g@),
            forall|i: int|
                0 <= i < g@.len() ==> id_edge(
                    *snap,
                    present@,
                    ups@,
                    es@,
                    adds@,
                    src_id(*snap, ups@, es@[(#[trigger] g@[i]).0 as int]),
                    src_id(*snap, ups@, es@[g@[i].1 as int]),
                ),
            forall|x: int|
                0 <= x < j && kept_edge(*snap, present@, #[trigger] snap.edges@[x]) && has_entry(*snap, ups@, es@, snap.edges@[x].0@)
                    && has_entry(*snap, ups@, es@, snap.edges@[x].1@) ==> exists|i: int|
                    0 <= i < g@.len() && src_id(*snap, ups@, es@[(#[trigger] g@[i]).0 as int]) == snap.edges@[x].0@
                        && src_id(*snap, ups@, es@[g@[i].1 as int]) == snap.edges@[x].1@,
        decreases snap.edges.len() - j,
    {
        let e = &snap.edges[j];
        let ghost before = g@;
        if !is_removed(snap, present, &e.0) && !is_removed(snap, present, &e.1) {
            match (find_entry(snap, ups, es, &e.0), find_entry(snap, ups, es, &e.1)) {
                (Some(p), Some(q)) => {
                    g.push((p, q));
                    proof {
                        assert(id_edge(*snap, present@, ups@, es@, adds@, snap.edges@[j as int].0@, snap.edges@[j as int].1@));
                        assert(g@[g@.len() - 1] == (p, q));
                        assert forall|i: int|
                            0 <= i < g@.len() implies id_edge(
                                *snap,
                                present@,
                                ups@,
                                es@,
                                adds@,
                                src_id(*snap, ups@, es@[(#[trigger] g@[i]).0 as int]),
                                src_id(*snap, ups@, es@[g@[i].1 as int]),
                            ) by {
                            if i < before.len() {
                                assert(g@[i] == before[i]);
                            }
                        }
                        assert forall|x: int|
                            0 <= x < j + 1 && kept_edge(*snap, present@, #[trigger] snap.edges@[x]) && has_entry(*snap, ups@, es@, snap.edges@[x].0@)
                                && has_entry(*snap, ups@, es@, snap.edges@[x].1@) implies exists|i: int|
                                0 <= i < g@.len() && src_id(*snap, ups@, es@[(#[trigger] g@[i]).0 as int]) == snap.edges@[x].0@
                                    && src_id(*snap, ups@, es@[g@[i].1 as int]) == snap.edges@[x].1@ by {
                            if x < j {
                                let i = choose|i: int|
                                    0 <= i < before.len() && src_id(*snap, ups@, es@[(#[trigger] before[i]).0 as int]) == snap.edges@[x].0@
                                        && src_id(*snap, ups@, es@[before[i].1 as int]) == snap.edges@[x].1@;
                                assert(g@[i] == before[i]);
                            } else {
                                assert(g@[g@.len() - 1] == (p, q));
                            }
                        }
                    }
                },
                _ => {},
            }
        }
        j = j + 1;
    }
    let mut t: usize = 0;
    while t < adds.len()
        invariant
            t <= adds@.len(),
            present@.len() == snap.nodes@.len(),
            entries_wf(*snap, ups@, es@),
            edges_within(es@.len() as nat, g@),
            forall|i: int|
                0 <= i < g@.len() ==> id_edge(
                    *snap,
                    present@,
                    ups@,
                    es@,
                    adds@,
                    src_id(*snap, ups@, es@[(#[trigger] g@[i]).0 as int]),
                    src_id(*snap, ups@, es@[g@[i].1 as int]),
                ),
            forall|x: int|
                0 <= x < snap.edges@.len() && kept_edge(*snap, present@, #[trigger] snap.edges@[x]) && has_entry(*snap, ups@, es@, snap.edges@[x].0@)
                    && has_entry(*snap, ups@, es@, snap.edges@[x].1@) ==> exists|i: int|
                    0 <= i < g@.len() && src_id(*snap, ups@, es@[(#[trigger] g@[i]).0 as int]) == snap.edges@[x].0@
                        && src_id(*snap, ups@, es@[g@[i].1 as int]) == snap.edges@[x].1@,
            forall|x: int|
                0 <= x < t && edge_accepted(*snap, ups@, es@, #[trigger] adds@[x]) ==> exists|i: int|
                    0 <= i < g@.len() && src_id(*snap, ups@, es@[(#[trigger] g@[i]).0 as int]) == adds@[x].from@
                        && src_id(*snap, ups@, es@[g@[i].1 as int]) == adds@[x].to@,
        decreases adds.len() - t,
    {
        let e = &adds[t];
        let ghost before = g@;
        if e.from != e.to {
            match (find_entry(snap, ups, es, &e.from), find_entry(snap, ups, es, &e.to)) {
                (Some(p), Some(q)) => {
                    g.push((p, q));
                    proof {
                        assert(edge_accepted(*snap, ups@, es@, adds@[t as int]));
                        assert(id_edge(*snap, present@, ups@, es@, adds@, adds@[t as int].from@, adds@[t as int].to@));
                        assert(g@[g@.len() - 1] == (p, q));
                        assert forall|i: int|
                            0 <= i < g@.len() implies id_edge(
                                *snap,
                                present@,
                                ups@,
                                es@,
                                adds@,
                                src_id(*snap, ups@, es@[(#[trigger] g@[i]).0 as int]),
                                src_id(*snap, ups@, es@[g@[i].1 as int]),
                            ) by {
                            if i < before.len() {
                                assert(g@[i] == before[i]);
                            }
                        }
                        assert forall|x: int|
                            0 <= x < snap.edges@.len() && kept_edge(*snap, present@, #[trigger] snap.edges@[x]) && has_entry(*snap, ups@, es@, snap.edges@[x].0@)
                                && has_entry(*snap, ups@, es@, snap.edges@[x].1@) implies exists|i: int|
                                0 <= i < g@.len() && src_id(*snap, ups@, es@[(#[trigger] g@[i]).0 as int]) == snap.edges@[x].0@
                                    && src_id(*snap, ups@, es@[g@[i].1 as int]) == snap.edges@[x].1@ by {
                            let i = choose|i: int|
                                0 <= i < before.len() && src_id(*snap, ups@, es@[(#[trigger] before[i]).0 as int]) == snap.edges@[x].0@
                                    && src_id(*snap, ups@, es@[before[i].1 as int]) == snap.edges@[x].1@;
                            assert(g@[i] == before[i]);
                        }
                        assert forall|x: int|
                            0 <= x < t + 1 && edge_accepted(*snap, ups@, es@, #[trigger] adds@[x]) implies exists|i: int|
                                0 <= i < g@.len() && src_id(*snap, ups@, es@[(#[trigger] g@[i]).0 as int]) == adds@[x].from@
                                    && src_id(*snap, ups@, es@[g@[i].1 as int]) == adds@[x].to@ by {
                            if x < t {
                                let i = choose|i: int|
                                    0 <= i < before.len() && src_id(*snap, ups@, es@[(#[trigger] before[i]).0 as int]) == adds@[x].from@
                                        && src_id(*snap, ups@, es@[before[i].1 as int]) == adds@[x].to@;
                                assert(g@[i] == before[i]);
                            } else {
                                assert(g@[g@.len() - 1] == (p, q));
                            }
                        }
                    }
                },
                _ => {},
            }
        }
        t = t + 1;
    }
    proof {
        assert forall|a: Seq<char>, b: Seq<char>|
            #[trigger] id_edge(*snap, present@, ups@, es@, adds@, a, b) implies exists|i: int|
                0 <= i < g@.len() && src_id(*snap, ups@, es@[(#[trigger] g@[i]).0 as int]) == a && src_id(
                    *snap,
                    ups@,
                    es@[g@[i].1 as int],
                ) == b by {
            if exists|j: int|
                0 <= j < snap.edges@.len() && kept_edge(*snap, present@, #[trigger] snap.edges@[j]) && snap.edges@[j].0@ == a
                    && snap.edges@[j].1@ == b {
                let j = choose|j: int|
                    0 <= j < snap.edges@.len() && kept_edge(*snap, present@, #[trigger] snap.edges@[j]) && snap.edges@[j].0@ == a
                        && snap.edges@[j].1@ == b;
                assert(kept_edge(*snap, present@, snap.edges@[j]));
            } else {
                let j = choose|j: int|
                    0 <= j < adds@.len() && edge_accepted(*snap, ups@, es@, #[trigger] adds@[j]) && adds@[j].from@ == a
                        && adds@[j].to@ == b;
                assert(edge_accepted(*snap, ups@, es@, adds@[j]));
            }
        }
    }
    g
}


/// The cycle check of the merged graph: `None` when it is acyclic, otherwise the ids along a cycle.
fn cycle_pass(
    snap: &GraphSnapshot,
    present: &Vec<bool>,
    ups: &Vec<NodeDraft>,
    es: &Vec<NodeSrc>,
    adds: &Vec<EdgeDraft>,
) -> (r: Option<Vec<String>>)
    requires
        present@.len() == snap.nodes@.len(),
        entries_wf(*snap, ups@, es@),
    ensures
        r is None ==> id_ranked(*snap, present@, ups@, es@, adds@),
        r matches Some(path) ==> id_cycle(*snap, present@, ups@, es@, adds@, views(path@)),
{
    let g = build_edges(snap, present, ups, es, adds);
    match order_or_cycle(es.len(), &g) {
        Ok(order) => {
            proof {
                let rank = |id: Seq<char>|
                    {
                        let p = choose|p: int| #[trigger] entry_at(*snap, ups@, es@, id, p);
                        choose|i: int| 0 <= i < order@.len() && order@[i] == p as usize
                    };
                assert forall|a: Seq<char>, b: Seq<char>|
                    #[trigger] id_edge(*snap, present@, ups@, es@, adds@, a, b) implies rank(a) < rank(b) by {
                    let i = choose|i: int|
                        0 <= i < g@.len() && src_id(*snap, ups@, es@[(#[trigger] g@[i]).0 as int]) == a && src_id(
                            *snap,
                            ups@,
                            es@[g@[i].1 as int],
                        ) == b;
                    let pa = g@[i].0 as int;
                    let pb = g@[i].1 as int;
                    assert(entry_at(*snap, ups@, es@, a, pa));
                    assert(entry_at(*snap, ups@, es@, b, pb));
                    let ca = choose|p: int| #[trigger] entry_at(*snap, ups@, es@, a, p);
                    let cb = choose|p: int| #[trigger] entry_at(*snap, ups@, es@, b, p);
                    if ca != pa {
                        assert(src_id(*snap, ups@, es@[ca]) != src_id(*snap, ups@, es@[pa]));
                    }
                    if cb != pb {
                        assert(src_id(*snap, ups@, es@[cb]) != src_id(*snap, ups@, es@[pb]));
                    }
                    assert(order@.contains((pa as int) as usize));
                    assert(order@.contains((pb as int) as usize));
                    let ia = choose|x: int| 0 <= x < order@.len() && order@[x] == pa as usize;
                    let ib = choose|x: int| 0 <= x < order@.len() && order@[x] == pb as usize;
                    assert(rank(a) == ia);
                    assert(rank(b) == ib);
                    assert(edge_in(g@, order@[ia] as int, order@[ib] as int));
                }
                assert(rank_respects(*snap, present@, ups@, es@, adds@, rank));
            }
            None
        },
        Err(c) => {
            let mut path: Vec<String> = Vec::new();
            let mut i: usize = 0;
            while i < c.len()
                invariant
                    i <= c@.len(),
                    entries_wf(*snap, ups@, es@),
                    forall|k: int| 0 <= k < c@.len() ==> #[trigger] c@[k] < es@.len(),
                    path@.len() == i,
                    forall|k: int| 0 <= k < i ==> (#[trigger] path@[k])@ == src_id(*snap, ups@, es@[c@[k] as int]),
                decreases c.len() - i,
            {
                let id = src_id_ref(snap, ups, es[c[i]]).clone();
                path.push(id);
                i = i + 1;
            }
            proof {
                let vp = views(path@);
                assert forall|k: int| 0 <= k < vp.len() - 1 implies #[trigger] id_edge(*snap, present@, ups@, es@, adds@, vp[k], vp[k + 1]) by {
                    assert(edge_in(g@, c@[k] as int, c@[k + 1] as int));
                    let e = choose|e: int| 0 <= e < g@.len() && (#[trigger] g@[e]).0 == c@[k] as int && g@[e].1 == c@[k + 1] as int;
                    assert(vp[k] == path@[k]@);
                    assert(vp[k + 1] == path@[k + 1]@);
                }
                assert(vp[0] == path@[0]@);
                assert(vp.last() == path@[path@.len() - 1]@);
                assert forall|a: int, b: int| 0 <= a < b < vp.len() - 1 implies vp[a] != vp[b] by {
                    assert(vp[a] == path@[a]@ && vp[b] == path@[b]@);
                    assert(c@[a] != c@[b]);
                    assert(src_id(*snap, ups@, es@[c@[a] as int]) != src_id(*snap, ups@, es@[c@[b] as int]));
                }
            }
            Some(path)
        },
    }
}

/// The task nodes among the first `n` merged nodes, in order.
pub open spec fn task_entries(snap: GraphSnapshot, ups: Seq<NodeDraft>, es: Seq<NodeSrc>, n: int) -> Seq<NodeSrc>
    decreases n,
{
    if n <= 0 {
        Seq::empty()
    } else {
        task_entries(snap, ups, es, n - 1) + if src_kind(snap, ups, es[n - 1]) == "task"@ {
            seq![es[n - 1]]
        } else {
            Seq::empty()
        }
    }
}

/// The scope a write conflict is reported under: the first scope of the first
/// task, else the first of the second, else empty.
pub open spec fn conflict_scope(sa: Seq<Seq<char>>, sb: Seq<Seq<char>>) -> Seq<char> {
    if sa.len() > 0 {
        sa[0]
    } else if sb.len() > 0 {
        sb[0]
    } else {
        Seq::empty()
    }
}

/// A write conflict between two tasks whose scopes overlap.
pub open spec fn pair_viol(snap: GraphSnapshot, ups: Seq<NodeDraft>, x: NodeSrc, y: NodeSrc) -> Seq<ViolationView> {
    if scope_lists_conflict(src_scopes(snap, ups, x), src_scopes(snap, ups, y)) {
        seq![
            ViolationView::WriteConflict {
                nodes: seq![src_id(snap, ups, x), src_id(snap, ups, y)],
                scope: conflict_scope(src_scopes(snap, ups, x), src_scopes(snap, ups, y)),
            },
        ]
    } else {
        Seq::empty()
    }
}

/// The conflicts of task `i` with the tasks after it and before position `m`.
pub open spec fn row_viols(snap: GraphSnapshot, ups: Seq<NodeDraft>, ts: Seq<NodeSrc>, i: int, m: int) -> Seq<ViolationView>
    decreases m - i,
{
    if m <= i + 1 {
        Seq::empty()
    } else {
        row_viols(snap, ups, ts, i, m - 1) + pair_viol(snap, ups, ts[i], ts[m - 1])
    }
}

/// The conflicts of every pair of tasks whose first member is among the first `n`,
/// pair by pair in order.
pub open spec fn conflict_viols(snap: GraphSnapshot, ups: Seq<NodeDraft>, ts: Seq<NodeSrc>, n: int) -> Seq<ViolationView>
    decreases n,
{
    if n <= 0 {
        Seq::empty()
    } else {
        conflict_viols(snap, ups, ts, n - 1) + row_viols(snap, ups, ts, n - 1, ts.len() as int)
    }
}

fn src_kind_ref<'a>(snap: &'a GraphSnapshot, ups: &'a Vec<NodeDraft>, s: NodeSrc) -> (r: &'a String)
    requires
        src_valid(*snap, ups@, s),
    ensures
        r@ == src_kind(*snap, ups@, s),
{
    match s {
        NodeSrc::Snapshot(k) => &snap.nodes[k].1.kind,
        NodeSrc::Draft(i) => &ups[i].kind,
    }
}

fn src_scopes_ref<'a>(snap: &'a GraphSnapshot, ups: &'a Vec<NodeDraft>, s: NodeSrc) -> (r: &'a Vec<String>)
    requires
        src_valid(*snap, ups@, s),
    ensures
        views(r@) == src_scopes(*snap, ups@, s),
{
    match s {
        NodeSrc::Snapshot(k) => &snap.nodes[k].1.write_scope,
        NodeSrc::Draft(i) => &ups[i].write_scope,
    }
}

/// The write conflict between two tasks, if their scopes overlap.
fn pair_check(snap: &GraphSnapshot, ups: &Vec<NodeDraft>, x: NodeSrc, y: NodeSrc) -> (r: Vec<GraphViolation>)
    requires
        src_valid(*snap, ups@, x),
        src_valid(*snap, ups@, y),
    ensures
        report_view(r@) == pair_viol(*snap, ups@, x, y),
{
    let sa = src_scopes_ref(snap, ups, x);
    let sb = src_scopes_ref(snap, ups, y);
    let mut r: Vec<GraphViolation> = Vec::new();
    if scopes_conflict(sa, sb) {
        let scope = if sa.len() > 0 {
            sa[0].clone()
        } else if sb.len() > 0 {
            sb[0].clone()
        } else {
            String::new()
        };
        proof {
            if sa@.len() > 0 {
                assert(views(sa@)[0] == sa@[0]@);
            } else if sb@.len() > 0 {
                assert(views(sb@)[0] == sb@[0]@);
            }
        }
        let mut nodes: Vec<String> = Vec::new();
        nodes.push(src_id_ref(snap, ups, x).clone());
        nodes.push(src_id_ref(snap, ups, y).clone());
        assert(views(nodes@) =~= seq![src_id(*snap, ups@, x), src_id(*snap, ups@, y)]);
        let v = GraphViolation::WriteConflict { nodes, scope };
        r.push(v);
        assert(report_view(r@) =~= seq![v@]);
    } else {
        assert(report_view(r@) =~= Seq::<ViolationView>::empty());
    }
    r
}

/// The write conflicts among the task nodes of the merged graph.
fn conflict_pass(snap: &GraphSnapshot, ups: &Vec<NodeDraft>, es: &Vec<NodeSrc>) -> (r: Vec<GraphViolation>)
    requires
        entries_wf(*snap, ups@, es@),
    ensures
        report_view(r@) == conflict_viols(
            *snap,
            ups@,
            task_entries(*snap, ups@, es@, es@.len() as int),
            task_entries(*snap, ups@, es@, es@.len() as int).len() as int,
        ),
{
    let mut ts: Vec<NodeSrc> = Vec::new();
    let mut p: usize = 0;
    while p < es.len()
        invariant
            p <= es@.len(),
            entries_wf(*snap, ups@, es@),
            ts@ == task_entries(*snap, ups@, es@, p as int),
            forall|k: int| 0 <= k < ts@.len() ==> src_valid(*snap, ups@, #[trigger] ts@[k]),
        decreases es.len() - p,
    {
        if str_eq(src_kind_ref(snap, ups, es[p]).as_str(), "task") {
            ts.push(es[p]);
        }
        assert(ts@ =~= task_entries(*snap, ups@, es@, p + 1));
        p = p + 1;
    }
    let mut viols: Vec<GraphViolation> = Vec::new();
    assert(report_view(viols@) =~= Seq::<ViolationView>::empty());
    let mut i: usize = 0;
    while i < ts.len()
        invariant
            i <= ts@.len(),
            forall|k: int| 0 <= k < ts@.len() ==> src_valid(*snap, ups@, #[trigger] ts@[k]),
            report_view(viols@) == conflict_viols(*snap, ups@, ts@, i as int),
        decreases ts.len() - i,
    {
        let ghost base = report_view(viols@);
        let mut j: usize = i + 1;
        assert(row_viols(*snap, ups@, ts@, i as int, j as int) =~= Seq::<ViolationView>::empty());
        assert(report_view(viols@) =~= base + row_viols(*snap, ups@, ts@, i as int, j as int));
        while j < ts.len()
            invariant
                i < ts@.len(),
                i + 1 <= j <= ts@.len(),
                forall|k: int| 0 <= k < ts@.len() ==> src_valid(*snap, ups@, #[trigger] ts@[k]),
                report_view(viols@) == base + row_viols(*snap, ups@, ts@, i as int, j as int),
            decreases ts.len() - j,
        {
            let mut pv = pair_check(snap, ups, ts[i], ts[j]);
            proof {
                lemma_report_concat(viols@, pv@);
            }
            viols.append(&mut pv);
            assert(report_view(viols@) =~= base + row_viols(*snap, ups@, ts@, i as int, j + 1));
            j = j + 1;
        }
        i = i + 1;
    }
    viols
}

/// The violations the checks report in order: removals, duplicate ids, the
/// drafts one by one, the new edges, a cycle if there is one, and the write
/// conflicts between tasks. Cycle-free graphs get no cycle violation; otherwise
/// exactly one, whose path is a cycle of the merged graph.
pub open spec fn publish_report(snap: GraphSnapshot, input: PublishInput, r: Seq<ViolationView>) -> bool {
    let rem = removal_phase(snap, views(input.remove_nodes@));
    let present = rem.0;
    let ups = input.upsert_nodes@;
    let es = merged(snap, present, ups, ups.len() as int);
    let adds = input.add_edges@;
    let head = rem.1 + dup_viols(draft_ids(ups), ups.len() as int) + upsert_viols(snap, present, ups, ups.len() as int)
        + edge_viols(snap, ups, es, adds, adds.len() as int);
    let ts = task_entries(snap, ups, es, es.len() as int);
    let tail = conflict_viols(snap, ups, ts, ts.len() as int);
    ||| r == head + tail && id_ranked(snap, present, ups, es, adds)
    ||| exists|path: Seq<Seq<char>>|
        #[trigger] id_cycle(snap, present, ups, es, adds, path) && r == head + seq![ViolationView::Cycle { path }] + tail
}

/// Validates a publish against the current graph and returns every violation.
pub fn validate_publish(snapshot: &GraphSnapshot, input: &PublishInput) -> (report: ValidationReport)
    requires
        snapshot_wf(*snapshot),
    ensures
        publish_report(*snapshot, *input, report_view(report.violations@)),
{
    let (present, mut viols) = removal_pass(snapshot, &input.remove_nodes);
    let mut dups = duplicate_pass(&input.upsert_nodes);
    proof {
        lemma_report_concat(viols@, dups@);
    }
    viols.append(&mut dups);
    let (mut uv, es) = upsert_pass(snapshot, &present, &input.upsert_nodes);
    proof {
        lemma_report_concat(viols@, uv@);
    }
    viols.append(&mut uv);
    let mut ev = edge_pass(snapshot, &input.upsert_nodes, &es, &input.add_edges);
    proof {
        lemma_report_concat(viols@, ev@);
    }
    viols.append(&mut ev);
    let ghost head = report_view(viols@);
    let cyc = cycle_pass(snapshot, &present, &input.upsert_nodes, &es, &input.add_edges);
    let ghost cyc_g = cyc;
    match cyc {
        Some(path) => {
            let ghost vp = views(path@);
            let v = GraphViolation::Cycle { path };
            proof {
                lemma_report_push(viols@, v);
            }
            viols.push(v);
            assert(report_view(viols@) == head.push(ViolationView::Cycle { path: vp }));
        },
        None => {},
    }
    let ghost after_cyc = report_view(viols@);
    let mut cv = conflict_pass(snapshot, &input.upsert_nodes, &es);
    let ghost tail = report_view(cv@);
    proof {
        lemma_report_concat(viols@, cv@);
    }
    viols.append(&mut cv);
    assert(report_view(viols@) == after_cyc + tail);
    proof {
        let ghost rem = removal_phase(*snapshot, views(input.remove_nodes@));
        assert(rem.0 == present@);
        match cyc_g {
            Some(path) => {
                assert(id_cycle(*snapshot, present@, input.upsert_nodes@, es@, input.add_edges@, views(path@)));
                assert(after_cyc == head.push(ViolationView::Cycle { path: views(path@) }));
                assert(report_view(viols@) =~= head + seq![ViolationView::Cycle { path: views(path@) }] + tail);
            },
            None => {
                assert(after_cyc == head);
                assert(report_view(viols@) =~= head + tail);
            },
        }
    }
    ValidationReport { violations: viols }
}


/// `v` reports `pid` as a missing parent.
spec fn names_orphan(v: ViolationView, pid: Seq<char>) -> bool {
    match v {
        ViolationView::OrphanParent { parent_id, .. } => parent_id == pid,
        _ => false,
    }
}

/// No violation of `vs` reports `pid` as a missing parent.
spec fn no_orphan(vs: Seq<ViolationView>, pid: Seq<char>) -> bool {
    forall|i: int| 0 <= i < vs.len() ==> !names_orphan(#[trigger] vs[i], pid)
}

proof fn lemma_no_orphan_concat(a: Seq<ViolationView>, b: Seq<ViolationView>, pid: Seq<char>)
    requires
        no_orphan(a, pid),
        no_orphan(b, pid),
    ensures
        no_orphan(a + b, pid),
{
    assert forall|i: int| 0 <= i < (a + b).len() implies !names_orphan(#[trigger] (a + b)[i], pid) by {
        if i < a.len() {
            assert((a + b)[i] == a[i]);
        } else {
            assert((a + b)[i] == b[i - a.len()]);
        }
    }
}

proof fn lemma_no_orphan_single(v: ViolationView, pid: Seq<char>)
    requires
        !names_orphan(v, pid),
    ensures
        no_orphan(seq![v], pid),
{
    assert forall|i: int| 0 <= i < seq![v].len() implies !names_orphan(#[trigger] seq![v][i], pid) by {
        assert(seq![v][i] == v);
    }
}

proof fn lemma_no_orphan_push(a: Seq<ViolationView>, v: ViolationView, pid: Seq<char>)
    requires
        no_orphan(a, pid),
        !names_orphan(v, pid),
    ensures
        no_orphan(a.push(v), pid),
{
    lemma_no_orphan_single(v, pid);
    lemma_no_orphan_concat(a, seq![v], pid);
    assert(a.push(v) =~= a + seq![v]);
}

proof fn lemma_removal_no_orphan(snap: GraphSnapshot, removes: Seq<Seq<char>>, pid: Seq<char>)
    ensures
        no_orphan(removal_phase(snap, removes).1, pid),
    decreases removes.len(),
{
    if removes.len() > 0 {
        lemma_removal_no_orphan(snap, removes.drop_last(), pid);
        let st = removal_phase(snap, removes.drop_last());
        let id = removes.last();
        if present_id(snap, st.0, id) {
            lemma_no_orphan_push(st.1, ViolationView::TypeInvariant { id, message: attempt_history_message() }, pid);
        } else {
            lemma_no_orphan_push(st.1, ViolationView::UnknownRemove { id }, pid);
        }
    }
}

/// A snapshot node whose id the publish does not remove is still present after the removals.
proof fn lemma_kept_present(snap: GraphSnapshot, removes: Seq<Seq<char>>, k: int)
    requires
        0 <= k < snap.nodes@.len(),
        !removes.contains(snap.nodes@[k].0@),
    ensures
        removal_phase(snap, removes).0.len() == snap.nodes@.len(),
        removal_phase(snap, removes).0[k],
    decreases removes.len(),
{
    lemma_removal_len(snap, removes);
    if removes.len() > 0 {
        let init = removes.drop_last();
        assert(!init.contains(snap.nodes@[k].0@)) by {
            if init.contains(snap.nodes@[k].0@) {
                let q = choose|q: int| 0 <= q < init.len() && init[q] == snap.nodes@[k].0@;
                assert(removes[q] == init[q]);
            }
        }
        lemma_kept_present(snap, init, k);
        let st = removal_phase(snap, init);
        let id = removes.last();
        assert(removes[removes.len() - 1] == id);
        if present_id(snap, st.0, id) {
            let k2 = choose|k2: int| #[trigger] present_at(snap, st.0, id, k2);
            assert(k2 != k);
        }
    }
}

proof fn lemma_dup_no_orphan(ids: Seq<Seq<char>>, n: int, pid: Seq<char>)
    ensures
        no_orphan(dup_viols(ids, n), pid),
    decreases n,
{
    if n > 0 {
        lemma_dup_no_orphan(ids, n - 1, pid);
        if ids.subrange(0, n - 1).contains(ids[n - 1]) {
            lemma_no_orphan_single(ViolationView::DuplicateId { id: ids[n - 1] }, pid);
        }
        lemma_no_orphan_concat(
            dup_viols(ids, n - 1),
            if ids.subrange(0, n - 1).contains(ids[n - 1]) {
                seq![ViolationView::DuplicateId { id: ids[n - 1] }]
            } else {
                Seq::empty()
            },
            pid,
        );
    }
}

proof fn lemma_unregistered_no_orphan(id: Seq<char>, vs: Seq<Seq<char>>, reg: Seq<Seq<char>>, n: int, pid: Seq<char>)
    ensures
        no_orphan(unregistered_viols(id, vs, reg, n), pid),
    decreases n,
{
    if n > 0 {
        lemma_unregistered_no_orphan(id, vs, reg, n - 1, pid);
        let v = ViolationView::ValidatorUnregistered { id, validator: vs[n - 1] };
        lemma_no_orphan_single(v, pid);
        lemma_no_orphan_concat(
            unregistered_viols(id, vs, reg, n - 1),
            if !reg.contains(vs[n - 1]) { seq![v] } else { Seq::empty() },
            pid,
        );
    }
}

proof fn lemma_missing_no_orphan(id: Seq<char>, items: Seq<Seq<char>>, n: int, pid: Seq<char>)
    ensures
        no_orphan(missing_input_viols(id, items, n), pid),
    decreases n,
{
    if n > 0 {
        lemma_missing_no_orphan(id, items, n - 1, pid);
        let v = ViolationView::MissingInput { id, message: input_message((n - 1) as nat) };
        lemma_no_orphan_single(v, pid);
        lemma_no_orphan_concat(
            missing_input_viols(id, items, n - 1),
            if items[n - 1].len() == 0 { seq![v] } else { Seq::empty() },
            pid,
        );
    }
}

proof fn lemma_draft_no_orphan(snap: GraphSnapshot, present: Seq<bool>, ups: Seq<NodeDraft>, d: NodeDraft, pid: Seq<char>)
    requires
        present_id(snap, present, pid) || draft_ids(ups).contains(pid),
    ensures
        no_orphan(draft_viols(snap, present, ups, d), pid),
{
    if !kind_known(d.kind@) {
        lemma_no_orphan_single(
            ViolationView::TypeInvariant { id: d.id@, message: "unknown kind "@ + d.kind@ },
            pid,
        );
    } else {
        let p1 = if trim_white(d.title@).len() == 0 {
            seq![ViolationView::TypeInvariant { id: d.id@, message: "title must be non-empty"@ }]
        } else {
            Seq::empty()
        };
        let p2 = if d.kind@ == "task"@ && d.write_scope@.len() == 0 {
            seq![ViolationView::TypeInvariant { id: d.id@, message: "task must declare write_scope"@ }]
        } else {
            Seq::empty()
        };
        let p3 = unregistered_viols(
            d.id@,
            views(d.validators@),
            views(snap.registered_validators@),
            d.validators@.len() as int,
        );
        let p4 = match d.inputs {
            Some(items) => if d.kind@ == "task"@ {
                missing_input_viols(d.id@, views(items@), items@.len() as int)
            } else {
                Seq::empty()
            },
            None => Seq::empty(),
        };
        let p5 = match d.parent_id {
            Some(q) => if !present_id(snap, present, q@) && !draft_ids(ups).contains(q@) {
                seq![ViolationView::OrphanParent { id: d.id@, parent_id: q@ }]
            } else {
                Seq::empty()
            },
            None => Seq::empty(),
        };
        assert(draft_viols(snap, present, ups, d) == p1 + p2 + p3 + p4 + p5);
        lemma_no_orphan_single(
            ViolationView::TypeInvariant { id: d.id@, message: "title must be non-empty"@ },
            pid,
        );
        lemma_no_orphan_single(
            ViolationView::TypeInvariant { id: d.id@, message: "task must declare write_scope"@ },
            pid,
        );
        lemma_unregistered_no_orphan(
            d.id@,
            views(d.validators@),
            views(snap.registered_validators@),
            d.validators@.len() as int,
            pid,
        );
        match d.inputs {
            Some(items) => {
                lemma_missing_no_orphan(d.id@, views(items@), items@.len() as int, pid);
            },
            None => {},
        }
        match d.parent_id {
            Some(q) => {
                if !present_id(snap, present, q@) && !draft_ids(ups).contains(q@) {
                    assert(q@ != pid);
                    lemma_no_orphan_single(ViolationView::OrphanParent { id: d.id@, parent_id: q@ }, pid);
                }
            },
            None => {},
        }
        lemma_no_orphan_concat(p1, p2, pid);
        lemma_no_orphan_concat(p1 + p2, p3, pid);
        lemma_no_orphan_concat(p1 + p2 + p3, p4, pid);
        lemma_no_orphan_concat(p1 + p2 + p3 + p4, p5, pid);
    }
}

proof fn lemma_upsert_no_orphan(snap: GraphSnapshot, present: Seq<bool>, ups: Seq<NodeDraft>, n: int, pid: Seq<char>)
    requires
        present_id(snap, present, pid) || draft_ids(ups).contains(pid),
    ensures
        no_orphan(upsert_viols(snap, present, ups, n), pid),
    decreases n,
{
    if n > 0 {
        lemma_upsert_no_orphan(snap, present, ups, n - 1, pid);
        lemma_draft_no_orphan(snap, present, ups, ups[n - 1], pid);
        lemma_no_orphan_concat(upsert_viols(snap, present, ups, n - 1), draft_viols(snap, present, ups, ups[n - 1]), pid);
    }
}

proof fn lemma_edge_no_orphan(
    snap: GraphSnapshot,
    ups: Seq<NodeDraft>,
    es: Seq<NodeSrc>,
    adds: Seq<EdgeDraft>,
    n: int,
    pid: Seq<char>,
)
    ensures
        no_orphan(edge_viols(snap, ups, es, adds, n), pid),
    decreases n,
{
    if n > 0 {
        lemma_edge_no_orphan(snap, ups, es, adds, n - 1, pid);
        let e = adds[n - 1];
        lemma_no_orphan_single(ViolationView::SelfEdge { id: e.from@ }, pid);
        lemma_no_orphan_single(ViolationView::DanglingDep { from: e.from@, to: e.to@ }, pid);
        lemma_no_orphan_concat(
            edge_viols(snap, ups, es, adds, n - 1),
            if e.from@ == e.to@ {
                seq![ViolationView::SelfEdge { id: e.from@ }]
            } else if !has_entry(snap, ups, es, e.from@) || !has_entry(snap, ups, es, e.to@) {
                seq![ViolationView::DanglingDep { from: e.from@, to: e.to@ }]
            } else {
                Seq::empty()
            },
            pid,
        );
    }
}

proof fn lemma_row_no_orphan(snap: GraphSnapshot, ups: Seq<NodeDraft>, ts: Seq<NodeSrc>, i: int, m: int, pid: Seq<char>)
    ensures
        no_orphan(row_viols(snap, ups, ts, i, m), pid),
    decreases m - i,
{
    if m > i + 1 {
        lemma_row_no_orphan(snap, ups, ts, i, m - 1, pid);
        let x = ts[i];
        let y = ts[m - 1];
        lemma_no_orphan_single(
            ViolationView::WriteConflict {
                nodes: seq![src_id(snap, ups, x), src_id(snap, ups, y)],
                scope: conflict_scope(src_scopes(snap, ups, x), src_scopes(snap, ups, y)),
            },
            pid,
        );
        lemma_no_orphan_concat(row_viols(snap, ups, ts, i, m - 1), pair_viol(snap, ups, x, y), pid);
    }
}

proof fn lemma_conflict_no_orphan(snap: GraphSnapshot, ups: Seq<NodeDraft>, ts: Seq<NodeSrc>, n: int, pid: Seq<char>)
    ensures
        no_orphan(conflict_viols(snap, ups, ts, n), pid),
    decreases n,
{
    if n > 0 {
        lemma_conflict_no_orphan(snap, ups, ts, n - 1, pid);
        lemma_row_no_orphan(snap, ups, ts, n - 1, ts.len() as int, pid);
        lemma_no_orphan_concat(
            conflict_viols(snap, ups, ts, n - 1),
            row_viols(snap, ups, ts, n - 1, ts.len() as int),
            pid,
        );
    }
}

/// A parent is reported missing only when it is truly missing: a publish whose
/// drafts name as parent a node that stands in the current graph and that the
/// publish does not remove, or a node that one of the drafts creates, gets no
/// orphan-parent violation for it, whichever draft names it.
pub proof fn lemma_known_parent_not_orphan(
    snap: GraphSnapshot,
    input: PublishInput,
    r: Seq<ViolationView>,
    pid: Seq<char>,
    child: Seq<char>,
)
    requires
        publish_report(snap, input, r),
        ((exists|k: int| 0 <= k < snap.nodes@.len() && #[trigger] snap.nodes@[k].0@ == pid) && !views(
            input.remove_nodes@,
        ).contains(pid)) || (exists|j: int|
            0 <= j < input.upsert_nodes@.len() && #[trigger] input.upsert_nodes@[j].id@ == pid),
    ensures
        !r.contains(ViolationView::OrphanParent { id: child, parent_id: pid }),
{
    let removes = views(input.remove_nodes@);
    let rem = removal_phase(snap, removes);
    let present = rem.0;
    let ups = input.upsert_nodes@;
    let es = merged(snap, present, ups, ups.len() as int);
    let adds = input.add_edges@;
    if (exists|k: int| 0 <= k < snap.nodes@.len() && #[trigger] snap.nodes@[k].0@ == pid) && !removes.contains(pid) {
        let k = choose|k: int| 0 <= k < snap.nodes@.len() && #[trigger] snap.nodes@[k].0@ == pid;
        lemma_kept_present(snap, removes, k);
        assert(present_at(snap, present, pid, k));
    } else {
        let j = choose|j: int| 0 <= j < ups.len() && #[trigger] ups[j].id@ == pid;
        assert(draft_ids(ups)[j] == pid);
    }
    lemma_removal_no_orphan(snap, removes, pid);
    lemma_dup_no_orphan(draft_ids(ups), ups.len() as int, pid);
    lemma_upsert_no_orphan(snap, present, ups, ups.len() as int, pid);
    lemma_edge_no_orphan(snap, ups, es, adds, adds.len() as int, pid);
    let ts = task_entries(snap, ups, es, es.len() as int);
    lemma_conflict_no_orphan(snap, ups, ts, ts.len() as int, pid);
    let h1 = rem.1 + dup_viols(draft_ids(ups), ups.len() as int);
    let h2 = h1 + upsert_viols(snap, present, ups, ups.len() as int);
    let head = h2 + edge_viols(snap, ups, es, adds, adds.len() as int);
    let tail = conflict_viols(snap, ups, ts, ts.len() as int);
    lemma_no_orphan_concat(rem.1, dup_viols(draft_ids(ups), ups.len() as int), pid);
    lemma_no_orphan_concat(h1, upsert_viols(snap, present, ups, ups.len() as int), pid);
    lemma_no_orphan_concat(h2, edge_viols(snap, ups, es, adds, adds.len() as int), pid);
    if r == head + tail {
        lemma_no_orphan_concat(head, tail, pid);
    } else {
        let path = choose|path: Seq<Seq<char>>|
            #[trigger] id_cycle(snap, present, ups, es, adds, path) && r == head + seq![ViolationView::Cycle { path }]
                + tail;
        lemma_no_orphan_single(ViolationView::Cycle { path }, pid);
        lemma_no_orphan_concat(head, seq![ViolationView::Cycle { path }], pid);
        lemma_no_orphan_concat(head + seq![ViolationView::Cycle { path }], tail, pid);
    }
    if r.contains(ViolationView::OrphanParent { id: child, parent_id: pid }) {
        let i = choose|i: int| 0 <= i < r.len() && r[i] == ViolationView::OrphanParent { id: child, parent_id: pid };
        assert(names_orphan(r[i], pid));
    }
}

/// `a → b` is one of `edges`, and both ends are listed in `ids`.
pub open spec fn listed_edge(edges: Seq<(String, String)>, ids: Seq<Seq<char>>, a: Seq<char>, b: Seq<char>) -> bool {
    ids.contains(a) && ids.contains(b) && exists|j: int|
        0 <= j < edges.len() && (#[trigger] edges[j]).0@ == a && edges[j].1@ == b
}

/// `c` is a simple cycle along `edges` between listed ids: it meets no id
/// twice before coming back to the first.
pub open spec fn listed_cycle(edges: Seq<(String, String)>, ids: Seq<Seq<char>>, c: Seq<Seq<char>>) -> bool {
    &&& c.len() >= 2
    &&& c[0] == c.last()
    &&& forall|i: int| 0 <= i < c.len() - 1 ==> #[trigger] listed_edge(edges, ids, c[i], c[i + 1])
    &&& forall|i: int, j: int| 0 <= i < j < c.len() - 1 ==> c[i] != c[j]
}

/// `out` lists every id once, and every edge between listed ids goes forward in it.
pub open spec fn listed_topo_order(edges: Seq<(String, String)>, ids: Seq<Seq<char>>, out: Seq<Seq<char>>) -> bool {
    &&& out.len() == ids.len()
    &&& out.no_duplicates()
    &&& forall|x: Seq<char>| ids.contains(x) <==> #[trigger] out.contains(x)
    &&& forall|i: int, j: int|
        0 <= i < out.len() && 0 <= j < out.len() && #[trigger] listed_edge(edges, ids, out[i], out[j]) ==> i < j
}

/// The position of `id` in `ids`, if it is there.
fn position_of_id(ids: &Vec<String>, id: &String) -> (r: Option<usize>)
    ensures
        r matches Some(p) ==> p < ids@.len() && ids@[p as int]@ == id@,
        r is None ==> !views(ids@).contains(id@),
{
    let mut p: usize = 0;
    while p < ids.len()
        invariant
            p <= ids@.len(),
            forall|q: int| 0 <= q < p ==> ids@[q]@ != id@,
        decreases ids.len() - p,
    {
        if ids[p] == *id {
            return Some(p);
        }
        p = p + 1;
    }
    proof {
        if views(ids@).contains(id@) {
            let q = choose|q: int| 0 <= q < views(ids@).len() && views(ids@)[q] == id@;
            assert(ids@[q]@ == id@);
        }
    }
    None
}

/// Whether the ids are pairwise distinct.
fn ids_distinct(ids: &Vec<String>) -> (r: bool)
    ensures
        r == views(ids@).no_duplicates(),
{
    let ghost v = views(ids@);
    let mut i: usize = 0;
    while i < ids.len()
        invariant
            i <= ids@.len(),
            v == views(ids@),
            forall|a: int, b: int| 0 <= a < b < i ==> v[a] != v[b],
        decreases ids.len() - i,
    {
        let mut j: usize = 0;
        while j < i
            invariant
                i < ids@.len(),
                j <= i,
                v == views(ids@),
                forall|a: int, b: int| 0 <= a < b < i ==> v[a] != v[b],
                forall|a: int| 0 <= a < j ==> v[a] != v[i as int],
            decreases i - j,
        {
            if ids[j] == ids[i] {
                assert(v[j as int] == v[i as int]);
                return false;
            }
            j = j + 1;
        }
        i = i + 1;
    }
    true
}

/// A topological order of `node_ids` under `edges` (edges with an unlisted end
/// are ignored). `None` when the ids repeat, or when the edges close a cycle.
pub fn topo_sort(edges: &Vec<(String, String)>, node_ids: &Vec<String>) -> (r: Option<Vec<String>>)
    ensures
        r matches Some(out) ==> listed_topo_order(edges@, views(node_ids@), views(out@)),
        r is None ==> !views(node_ids@).no_duplicates() || exists|c: Seq<Seq<char>>|
            #[trigger] listed_cycle(edges@, views(node_ids@), c),
{
    let ghost ids = views(node_ids@);
    if !ids_distinct(node_ids) {
        return None;
    }
    let n = node_ids.len();
    let mut g: Vec<(usize, usize)> = Vec::new();
    let mut j: usize = 0;
    while j < edges.len()
        invariant
            j <= edges@.len(),
            n == node_ids@.len(),
            ids == views(node_ids@),
            ids.no_duplicates(),
            edges_within(n as nat, g@),
            forall|k: int| 0 <= k < g@.len() ==> listed_edge(edges@, ids, ids[(#[trigger] g@[k]).0 as int], ids[g@[k].1 as int]),
            forall|x: int|
                0 <= x < j && ids.contains((#[trigger] edges@[x]).0@) && ids.contains(edges@[x].1@) ==> exists|k: int|
                    0 <= k < g@.len() && ids[(#[trigger] g@[k]).0 as int] == edges@[x].0@ && ids[g@[k].1 as int] == edges@[x].1@,
        decreases edges.len() - j,
    {
        let ghost before = g@;
        match (position_of_id(node_ids, &edges[j].0), position_of_id(node_ids, &edges[j].1)) {
            (Some(p), Some(q)) => {
                g.push((p, q));
                proof {
                    assert(ids[p as int] == edges@[j as int].0@);
                    assert(ids[q as int] == edges@[j as int].1@);
                    assert(ids.contains(ids[p as int]) && ids.contains(ids[q as int]));
                    assert forall|k: int| 0 <= k < g@.len() implies listed_edge(edges@, ids, ids[(#[trigger] g@[k]).0 as int], ids[g@[k].1 as int]) by {
                        if k < before.len() {
                            assert(g@[k] == before[k]);
                        }
                    }
                    assert forall|x: int|
                        0 <= x < j + 1 && ids.contains((#[trigger] edges@[x]).0@) && ids.contains(edges@[x].1@) implies exists|k: int|
                            0 <= k < g@.len() && ids[(#[trigger] g@[k]).0 as int] == edges@[x].0@ && ids[g@[k].1 as int] == edges@[x].1@ by {
                        if x < j {
                            let k = choose|k: int|
                                0 <= k < before.len() && ids[(#[trigger] before[k]).0 as int] == edges@[x].0@ && ids[before[k].1 as int] == edges@[x].1@;
                            assert(g@[k] == before[k]);
                        } else {
                            assert(g@[g@.len() - 1] == (p, q));
                        }
                    }
                }
            },
            _ => {},
        }
        j = j + 1;
    }
    match order_or_cycle(n, &g) {
        Ok(order) => {
            let mut out: Vec<String> = Vec::new();
            let mut i: usize = 0;
            while i < order.len()
                invariant
                    i <= order@.len(),
                    n == node_ids@.len(),
                    is_topo_order(n as nat, g@, order@),
                    out@.len() == i,
                    forall|k: int| 0 <= k < i ==> (#[trigger] out@[k])@ == ids[order@[k] as int],
                    ids == views(node_ids@),
                decreases order.len() - i,
            {
                out.push(node_ids[order[i]].clone());
                i = i + 1;
            }
            proof {
                let vo = views(out@);
                assert forall|k: int| 0 <= k < vo.len() implies #[trigger] vo[k] == ids[order@[k] as int] by {
                    assert(vo[k] == out@[k]@);
                }
                assert forall|a: int, b: int| 0 <= a < b < vo.len() implies vo[a] != vo[b] by {
                    assert(vo[a] == ids[order@[a] as int]);
                    assert(vo[b] == ids[order@[b] as int]);
                    assert(order@[a] != order@[b]);
                }
                assert forall|x: Seq<char>| ids.contains(x) <==> #[trigger] vo.contains(x) by {
                    if ids.contains(x) {
                        let p = choose|p: int| 0 <= p < ids.len() && ids[p] == x;
                        assert(order@.contains((p as int) as usize));
                        let k = choose|k: int| 0 <= k < order@.len() && order@[k] == p as usize;
                        assert(vo[k] == x);
                    }
                    if vo.contains(x) {
                        let k = choose|k: int| 0 <= k < vo.len() && vo[k] == x;
                        assert(ids[order@[k] as int] == x);
                    }
                }
                assert forall|a: int, b: int|
                    0 <= a < vo.len() && 0 <= b < vo.len() && #[trigger] listed_edge(edges@, ids, vo[a], vo[b]) implies a < b by {
                    let x = choose|x: int|
                        0 <= x < edges@.len() && (#[trigger] edges@[x]).0@ == vo[a] && edges@[x].1@ == vo[b];
                    assert(vo[a] == ids[order@[a] as int]);
                    assert(vo[b] == ids[order@[b] as int]);
                    assert(ids.contains(edges@[x].0@) && ids.contains(edges@[x].1@));
                    let k = choose|k: int|
                        0 <= k < g@.len() && ids[(#[trigger] g@[k]).0 as int] == edges@[x].0@ && ids[g@[k].1 as int] == edges@[x].1@;
                    assert(g@[k].0 == order@[a]);
                    assert(g@[k].1 == order@[b]);
                    assert(edge_in(g@, order@[a] as int, order@[b] as int));
                }
            }
            Some(out)
        },
        Err(c) => {
            proof {
                let sc = c@.map_values(|v: usize| ids[v as int]);
                assert forall|i: int| 0 <= i < sc.len() - 1 implies #[trigger] listed_edge(edges@, ids, sc[i], sc[i + 1]) by {
                    assert(edge_in(g@, c@[i] as int, c@[i + 1] as int));
                    let k = choose|k: int| 0 <= k < g@.len() && (#[trigger] g@[k]).0 == c@[i] as int && g@[k].1 == c@[i + 1] as int;
                    assert(listed_edge(edges@, ids, ids[g@[k].0 as int], ids[g@[k].1 as int]));
                }
                assert forall|a: int, b: int| 0 <= a < b < sc.len() - 1 implies sc[a] != sc[b] by {
                    assert(c@[a] != c@[b]);
                    assert(sc[a] == ids[c@[a] as int] && sc[b] == ids[c@[b] as int]);
                }
                assert(listed_cycle(edges@, ids, sc));
            }
            None
        },
    }
}


/// The state a task is taken to be in: its stored state, or todo when none is stored.
pub open spec fn effective_state(ts: Option<TaskState>) -> TaskState {
    match ts {
        Some(s) => s,
        None => TaskState::Todo,
    }
}

/// No id occurs twice.
pub open spec fn node_list_wf(nodes: Seq<(String, ExistingNode)>) -> bool {
    forall|a: int, b: int|
        0 <= a < nodes.len() && 0 <= b < nodes.len() && a != b ==> (#[trigger] nodes[a]).0@ != (#[trigger] nodes[b]).0@
}

/// Node `k` is ready right after a publish: a task whose state (todo when
/// unset) is todo or ready, every upstream task of which is done (todo when
/// unset). Packages count as active here, so no ancestor restricts.
pub open spec fn ready_after(nodes: Seq<(String, ExistingNode)>, edges: Seq<(String, String)>, k: int) -> bool {
    &&& nodes[k].1.kind@ == "task"@
    &&& claimable_state(Some(effective_state(nodes[k].1.task_state)))
    &&& forall|e: int, m: int|
        0 <= e < edges.len() && 0 <= m < nodes.len() && (#[trigger] edges[e]).1@ == nodes[k].0@ && (#[trigger] nodes[m]).0@
            == edges[e].0@ && nodes[m].1.kind@ == "task"@ ==> effective_state(nodes[m].1.task_state) == TaskState::Done
}

fn stored_or_todo(ts: Option<TaskState>) -> (r: TaskState)
    ensures
        r == effective_state(ts),
{
    match ts {
        Some(s) => s,
        None => TaskState::Todo,
    }
}

/// The node with id `id`, if any.
fn find_node(nodes: &Vec<(String, ExistingNode)>, id: &String) -> (r: Option<usize>)
    requires
        node_list_wf(nodes@),
    ensures
        r matches Some(m) ==> m < nodes@.len() && nodes@[m as int].0@ == id@ && forall|m2: int|
            0 <= m2 < nodes@.len() && (#[trigger] nodes@[m2]).0@ == id@ ==> m2 == m,
        r is None ==> forall|m2: int| 0 <= m2 < nodes@.len() ==> (#[trigger] nodes@[m2]).0@ != id@,
{
    let mut m: usize = 0;
    while m < nodes.len()
        invariant
            m <= nodes@.len(),
            node_list_wf(nodes@),
            forall|q: int| 0 <= q < m ==> (#[trigger] nodes@[q]).0@ != id@,
        decreases nodes.len() - m,
    {
        if nodes[m].0 == *id {
            return Some(m);
        }
        m = m + 1;
    }
    None
}

/// The task ids that become ready once a validated publish is merged, sorted.
pub fn ready_after_publish(snapshot_nodes: &Vec<(String, ExistingNode)>, edges: &Vec<(String, String)>) -> (r: Vec<String>)
    requires
        node_list_wf(snapshot_nodes@),
    ensures
        strictly_sorted(views(r@)),
        forall|x: Seq<char>|
            #[trigger] views(r@).contains(x) <==> exists|k: int|
                0 <= k < snapshot_nodes@.len() && (#[trigger] snapshot_nodes@[k]).0@ == x && ready_after(snapshot_nodes@, edges@, k),
{
    let nodes = snapshot_nodes;
    let mut packages: Vec<(String, ScopeState)> = Vec::new();
    let mut q: usize = 0;
    while q < nodes.len()
        invariant
            q <= nodes@.len(),
            forall|j: int| 0 <= j < packages@.len() ==> (#[trigger] packages@[j]).1 == ScopeState::Active,
        decreases nodes.len() - q,
    {
        if str_eq(nodes[q].1.kind.as_str(), "package") {
            packages.push((nodes[q].1.path.clone(), ScopeState::Active));
        }
        q = q + 1;
    }
    let mut out: Vec<String> = Vec::new();
    let mut k: usize = 0;
    while k < nodes.len()
        invariant
            k <= nodes@.len(),
            node_list_wf(nodes@),
            forall|j: int| 0 <= j < packages@.len() ==> (#[trigger] packages@[j]).1 == ScopeState::Active,
            strictly_sorted(views(out@)),
            forall|x: Seq<char>|
                #[trigger] views(out@).contains(x) <==> exists|k2: int|
                    0 <= k2 < k && (#[trigger] nodes@[k2]).0@ == x && ready_after(nodes@, edges@, k2),
        decreases nodes.len() - k,
    {
        let n = &nodes[k];
        if str_eq(n.1.kind.as_str(), "task") {
            let mut upstream: Vec<(String, TaskState)> = Vec::new();
            let mut e: usize = 0;
            while e < edges.len()
                invariant
                    k < nodes@.len(),
                    e <= edges@.len(),
                    node_list_wf(nodes@),
                    *n == nodes@[k as int],
                    (forall|j: int| 0 <= j < upstream@.len() ==> (#[trigger] upstream@[j]).1 == TaskState::Done) <==> (forall|x: int, m: int|
                        0 <= x < e && 0 <= m < nodes@.len() && (#[trigger] edges@[x]).1@ == nodes@[k as int].0@ && (#[trigger] nodes@[m]).0@
                            == edges@[x].0@ && nodes@[m].1.kind@ == "task"@ ==> effective_state(nodes@[m].1.task_state) == TaskState::Done),
                decreases edges.len() - e,
            {
                let ghost before = upstream@;
                let ghost mut pushed = false;
                let ghost mut m0: int = 0;
                let ghost id = nodes@[k as int].0@;
                if edges[e].1 == n.0 {
                    match find_node(nodes, &edges[e].0) {
                        Some(m) => {
                            if str_eq(nodes[m].1.kind.as_str(), "task") {
                                let st = stored_or_todo(nodes[m].1.task_state);
                                upstream.push((edges[e].0.clone(), st));
                                proof {
                                    pushed = true;
                                    m0 = m as int;
                                    assert(edges@[e as int].1@ == id && nodes@[m0].0@ == edges@[e as int].0@ && nodes@[m0].1.kind@ == "task"@);
                                    assert(upstream@ == before.push(upstream@[upstream@.len() - 1]));
                                    assert(upstream@[upstream@.len() - 1].1 == effective_state(nodes@[m0].1.task_state));
                                }
                            } else {
                                assert(nodes@[m as int].1.kind@ != "task"@);
                            }
                        },
                        None => {},
                    }
                } else {
                    assert(edges@[e as int].1@ != id);
                }
                proof {
                    if !pushed {
                        assert(upstream@ == before);
                    }
                    assert forall|m: int|
                        0 <= m < nodes@.len() && (#[trigger] edges@[e as int]).1@ == id && (#[trigger] nodes@[m]).0@ == edges@[e as int].0@
                            && nodes@[m].1.kind@ == "task"@ implies pushed && m == m0 by {
                    }
                    let ghost all_up = forall|j: int| 0 <= j < upstream@.len() ==> (#[trigger] upstream@[j]).1 == TaskState::Done;
                    let ghost all_before = forall|j: int| 0 <= j < before.len() ==> (#[trigger] before[j]).1 == TaskState::Done;
                    assert(all_up == (all_before && (pushed ==> effective_state(nodes@[m0].1.task_state) == TaskState::Done))) by {
                        if all_up {
                            assert forall|j: int| 0 <= j < before.len() implies (#[trigger] before[j]).1 == TaskState::Done by {
                                assert(upstream@[j] == before[j]);
                            }
                            if pushed {
                                assert(upstream@[upstream@.len() - 1].1 == TaskState::Done);
                            }
                        }
                        if all_before && (pushed ==> effective_state(nodes@[m0].1.task_state) == TaskState::Done) {
                            assert forall|j: int| 0 <= j < upstream@.len() implies (#[trigger] upstream@[j]).1 == TaskState::Done by {
                                if j < before.len() {
                                    assert(upstream@[j] == before[j]);
                                }
                            }
                        }
                    }
                    let ghost b_old = forall|x: int, m: int|
                        0 <= x < e && 0 <= m < nodes@.len() && (#[trigger] edges@[x]).1@ == id && (#[trigger] nodes@[m]).0@
                            == edges@[x].0@ && nodes@[m].1.kind@ == "task"@ ==> effective_state(nodes@[m].1.task_state) == TaskState::Done;
                    let ghost b_new = forall|x: int, m: int|
                        0 <= x < e + 1 && 0 <= m < nodes@.len() && (#[trigger] edges@[x]).1@ == id && (#[trigger] nodes@[m]).0@
                            == edges@[x].0@ && nodes@[m].1.kind@ == "task"@ ==> effective_state(nodes@[m].1.task_state) == TaskState::Done;
                    assert(b_new == (b_old && (pushed ==> effective_state(nodes@[m0].1.task_state) == TaskState::Done))) by {
                        if b_new {
                            if pushed {
                                assert(0 <= m0 < nodes@.len() && edges@[e as int].1@ == id && nodes@[m0].0@ == edges@[e as int].0@);
                            }
                        }
                        if b_old && (pushed ==> effective_state(nodes@[m0].1.task_state) == TaskState::Done) {
                            assert forall|x: int, m: int|
                                0 <= x < e + 1 && 0 <= m < nodes@.len() && (#[trigger] edges@[x]).1@ == id && (#[trigger] nodes@[m]).0@
                                    == edges@[x].0@ && nodes@[m].1.kind@ == "task"@ implies effective_state(nodes@[m].1.task_state)
                                    == TaskState::Done by {
                                if x == e {
                                    assert(pushed && m == m0);
                                }
                            }
                        }
                    }
                }
                e = e + 1;
            }
            let path = chars_of(n.1.path.as_str());
            let mut ancestors: Vec<(String, ScopeState)> = Vec::new();
            let mut p: usize = 0;
            while p < packages.len()
                invariant
                    p <= packages@.len(),
                    forall|j: int| 0 <= j < packages@.len() ==> (#[trigger] packages@[j]).1 == ScopeState::Active,
                    forall|j: int| 0 <= j < ancestors@.len() ==> (#[trigger] ancestors@[j]).1 == ScopeState::Active,
                decreases packages.len() - p,
            {
                let dotted = chars_push(&chars_of(packages[p].0.as_str()), '.');
                if chars_starts_with(&path, &dotted) {
                    ancestors.push((packages[p].0.clone(), packages[p].1));
                }
                p = p + 1;
            }
            let input = ReadyInput {
                node_id: n.0.clone(),
                kind: String::from_str("task"),
                task_state: Some(stored_or_todo(n.1.task_state)),
                path: n.1.path.clone(),
                upstream_task_states: upstream,
                ancestor_scopes: ancestors,
            };
            let ready = compute_ready(&input);
            proof {
                reveal_strlit("task");
                assert(ready == ready_after(nodes@, edges@, k as int));
            }
            if ready {
                proof {
                    if views(out@).contains(nodes@[k as int].0@) {
                        let k2 = choose|k2: int|
                            0 <= k2 < k && (#[trigger] nodes@[k2]).0@ == nodes@[k as int].0@ && ready_after(nodes@, edges@, k2);
                        assert(nodes@[k2].0@ != nodes@[k as int].0@);
                    }
                }
                insert_sorted(&mut out, n.0.clone());
            }
        }
        proof {
            assert forall|x: Seq<char>|
                #[trigger] views(out@).contains(x) <==> exists|k2: int|
                    0 <= k2 < k + 1 && (#[trigger] nodes@[k2]).0@ == x && ready_after(nodes@, edges@, k2) by {
                if exists|k2: int| 0 <= k2 < k + 1 && (#[trigger] nodes@[k2]).0@ == x && ready_after(nodes@, edges@, k2) {
                    let k2 = choose|k2: int| 0 <= k2 < k + 1 && (#[trigger] nodes@[k2]).0@ == x && ready_after(nodes@, edges@, k2);
                    if k2 == k {
                        assert(ready_after(nodes@, edges@, k as int));
                    }
                }
            }
        }
        k = k + 1;
    }
    out
}

/// A stored state is taken as it is, and a task with no stored state counts as todo.
/// So a task is never ready right after a publish while some upstream task (a
/// task node with an edge into it) has a stored state other than done, or none;
/// and a ready task itself is stored as todo or ready, or has no state.
pub proof fn lemma_upstream_must_be_done(
    nodes: Seq<(String, ExistingNode)>,
    edges: Seq<(String, String)>,
    k: int,
    e: int,
    m: int,
    s: TaskState,
)
    requires
        0 <= k < nodes.len(),
        0 <= e < edges.len(),
        0 <= m < nodes.len(),
    ensures
        effective_state(Some(s)) == s,
        effective_state(None) == TaskState::Todo,
        edges[e].1@ == nodes[k].0@ && nodes[m].0@ == edges[e].0@ && nodes[m].1.kind@ == "task"@
            && nodes[m].1.task_state != Some(TaskState::Done) ==> !ready_after(nodes, edges, k),
        ready_after(nodes, edges, k) ==> (nodes[k].1.task_state == Some(TaskState::Todo)
            || nodes[k].1.task_state == Some(TaskState::Ready) || nodes[k].1.task_state is None),
{
    if edges[e].1@ == nodes[k].0@ && nodes[m].0@ == edges[e].0@ && nodes[m].1.kind@ == "task"@
        && nodes[m].1.task_state != Some(TaskState::Done) && ready_after(nodes, edges, k) {
        assert(effective_state(nodes[m].1.task_state) == TaskState::Done);
    }
}

} // verus!
