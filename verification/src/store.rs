//! The store's decisions: leases, attempts, submissions, claims, scope
//! changes, contracts and paging. The caller reads and writes the database
//! and the git workspace; what to do with what they hold is decided here.
use vstd::prelude::*;
use crate::error::{StoreError, is_conflict};
use crate::state_machine::{TaskState, ScopeState, task_holds_lease, task_step};
use crate::text::{str_eq, chars_of, chars_push, chars_starts_with, views, like_from, sql_like};
use crate::graph::{
    decimal, decimal_chars, short_form, short_id, GraphSnapshot, PublishInput, ValidationReport, NodeDraft,
    publish_report, report_view, snapshot_wf, validate_publish,
};
use crate::ready::dotted_under;
use crate::git::{ScopeDiff, any_scope_conflict, scope_lists, line_match};
use crate::text::{occurs_at, contains_sub};
use crate::validators::{ValidatorFailure, WorkspaceProbe, CargoOutcome, run_validators, all_verdicts, failure_views};
use crate::write_scope::scope_lists_conflict;

verus! {

/// The lease length a request asks for, in seconds: 900 when it asks for
/// none (zero or less).
pub open spec fn lease_ttl(secs: i64) -> i64 {
    if secs <= 0 {
        900
    } else {
        secs
    }
}

/// The lease length to grant for a request.
pub fn effective_lease_ttl(lease_ttl_secs: i64) -> (r: i64)
    ensures
        r == lease_ttl(lease_ttl_secs),
{
    if lease_ttl_secs <= 0 {
        900
    } else {
        lease_ttl_secs
    }
}

/// The lease length a request that names none asks for.
pub fn default_ttl() -> (r: i64)
    ensures
        r == 900,
{
    900
}

/// The number of events one page holds: 100 when the request names no
/// positive limit, and never more than 500.
pub open spec fn page_limit(limit: i64) -> i64 {
    if limit <= 0 {
        100
    } else if limit > 500 {
        500
    } else {
        limit
    }
}

/// The page size for an event listing.
pub fn event_page_limit(limit: i64) -> (r: i64)
    ensures
        r == page_limit(limit),
{
    if limit <= 0 {
        100
    } else if limit > 500 {
        500
    } else {
        limit
    }
}

/// The actor is an agent (its name starts with `agent:`).
pub open spec fn is_agent(actor: Seq<char>) -> bool {
    "agent:"@.is_prefix_of(actor)
}

/// The error a human-only operation gives an agent.
pub open spec fn is_human_only(e: StoreError) -> bool {
    e matches StoreError::Forbidden(m) && m@ == "HUMAN_ONLY"@
}

/// Scope changes, cancellations and major approvals are for humans only.
pub fn require_human(actor: &str) -> (r: Result<(), StoreError>)
    ensures
        r is Err <==> is_agent(actor@),
        r matches Err(e) ==> is_human_only(e),
{
    let a = chars_of(actor);
    let p = chars_of("agent:");
    if chars_starts_with(&a, &p) {
        Err(StoreError::Forbidden(String::from_str("HUMAN_ONLY")))
    } else {
        Ok(())
    }
}

/// The scope state a scope action moves a package to.
pub open spec fn scope_target(action: Seq<char>) -> Option<ScopeState> {
    if action == "pause"@ {
        Some(ScopeState::Paused)
    } else if action == "close"@ {
        Some(ScopeState::Closed)
    } else if action == "reopen"@ {
        Some(ScopeState::Active)
    } else if action == "archive"@ {
        Some(ScopeState::Archived)
    } else {
        None
    }
}

/// The refusal of an unknown scope action.
pub open spec fn is_invalid_action(e: StoreError, action: Seq<char>) -> bool {
    e matches StoreError::Validation { code, message, details } && code@ == "INVALID_ACTION"@ && message@
        == "unknown action "@ + action && details@ == "{}"@
}

/// What a scope change asks for: refused for agents, then the target state
/// of the action, or `INVALID_ACTION` for an unknown one.
pub fn scope_change_target(actor: &str, action: &str) -> (r: Result<ScopeState, StoreError>)
    ensures
        is_agent(actor@) ==> (r matches Err(e) && is_human_only(e)),
        !is_agent(actor@) ==> match scope_target(action@) {
            Some(s) => r == Ok::<ScopeState, StoreError>(s),
            None => r matches Err(e) && is_invalid_action(e, action@),
        },
{
    require_human(actor)?;
    if str_eq(action, "pause") {
        Ok(ScopeState::Paused)
    } else if str_eq(action, "close") {
        Ok(ScopeState::Closed)
    } else if str_eq(action, "reopen") {
        Ok(ScopeState::Active)
    } else if str_eq(action, "archive") {
        Ok(ScopeState::Archived)
    } else {
        Err(
            StoreError::Validation {
                code: String::from_str("INVALID_ACTION"),
                message: String::from_str("unknown action ").concat(action),
                details: String::from_str("{}"),
            },
        )
    }
}

/// A forced close or pause cancels the running tasks below the package.
pub fn force_cancels_running(action: &str, force: bool) -> (r: bool)
    ensures
        r == (force && (action@ == "close"@ || action@ == "pause"@)),
{
    force && (str_eq(action, "close") || str_eq(action, "pause"))
}

/// What the store reads of a node when it decides about leases and scopes.
#[derive(Debug, Clone)]
pub struct NodeBrief {
    pub id: String,
    pub kind: String,
    pub path: String,
    pub task_state: Option<TaskState>,
}

/// A task holding a lease below the package at `pkg_path`: its path
/// matches the pattern `<pkg_path>.%` (SQL `LIKE`, so `%`, `_` and `\` in
/// the package path act as wildcards and escape).
pub open spec fn running_below(n: NodeBrief, pkg_path: Seq<char>) -> bool {
    n.kind@ == "task"@ && like_from(n.path@, pkg_path + ".%"@, 0, 0) && (n.task_state matches Some(s)
        && task_holds_lease(s))
}

/// The ids of the first `k` nodes that are running tasks below the package.
pub open spec fn running_below_ids(nodes: Seq<NodeBrief>, pkg_path: Seq<char>, k: int) -> Seq<Seq<char>>
    decreases k,
{
    if k <= 0 {
        Seq::empty()
    } else if running_below(nodes[k - 1], pkg_path) {
        running_below_ids(nodes, pkg_path, k - 1).push(nodes[k - 1].id@)
    } else {
        running_below_ids(nodes, pkg_path, k - 1)
    }
}

/// The tasks a forced scope change cancels: those holding a lease whose
/// path matches `<pkg_path>.%`, in the order given.
pub fn tasks_to_cancel(pkg_path: &str, nodes: &Vec<NodeBrief>) -> (r: Vec<String>)
    ensures
        views(r@) == running_below_ids(nodes@, pkg_path@, nodes@.len() as int),
{
    let pattern = chars_push(&chars_push(&chars_of(pkg_path), '.'), '%');
    proof {
        reveal_strlit(".%");
        assert(pattern@ =~= pkg_path@ + ".%"@);
    }
    let mut r: Vec<String> = Vec::new();
    let mut k: usize = 0;
    while k < nodes.len()
        invariant
            k <= nodes@.len(),
            pattern@ == pkg_path@ + ".%"@,
            views(r@) == running_below_ids(nodes@, pkg_path@, k as int),
        decreases nodes.len() - k,
    {
        let n = &nodes[k];
        let holds = match n.task_state {
            Some(TaskState::Claimed) => true,
            Some(TaskState::Running) => true,
            Some(TaskState::Review) => true,
            _ => false,
        };
        if str_eq(n.kind.as_str(), "task") && holds && sql_like(&chars_of(n.path.as_str()), &pattern) {
            let ghost before = views(r@);
            r.push(n.id.clone());
            assert(views(r@) =~= before.push(n.id@));
        }
        k = k + 1;
    }
    r
}

/// What a lease check reads of a node.
#[derive(Debug, Clone, Copy)]
pub struct LeaseFields {
    pub lease_token: Option<u128>,
    /// In milliseconds since the epoch.
    pub lease_expires: Option<i64>,
    pub task_state: Option<TaskState>,
}

/// The lease is held with `token` and still running at `now`, and the task
/// is in a state that holds a lease.
pub open spec fn lease_ok(f: LeaseFields, token: u128, now: i64) -> bool {
    &&& f.lease_token == Some(token)
    &&& f.lease_expires matches Some(e) && e > now
    &&& f.task_state matches Some(s) && task_holds_lease(s)
}

fn lease_ok_exec(f: &LeaseFields, token: u128, now: i64) -> (r: bool)
    ensures
        r == lease_ok(*f, token, now),
{
    let token_ok = match f.lease_token {
        Some(t) => t == token,
        None => false,
    };
    let live = match f.lease_expires {
        Some(e) => e > now,
        None => false,
    };
    let holds = match f.task_state {
        Some(TaskState::Claimed) => true,
        Some(TaskState::Running) => true,
        Some(TaskState::Review) => true,
        _ => false,
    };
    token_ok && live && holds
}

/// The check that guards every call made under a lease: the node must exist
/// (`not found: node <id>`), and the lease must be held with this token and
/// not yet run out (`LEASE_LOST`).
pub fn check_lease(node_id: &str, row: Option<LeaseFields>, token: u128, now_ms: i64) -> (r: Result<(), StoreError>)
    ensures
        match row {
            None => r matches Err(StoreError::NotFound(m)) && m@ == "node "@ + node_id@,
            Some(f) => if lease_ok(f, token, now_ms) {
                r is Ok
            } else {
                r matches Err(e) && is_conflict(e, "LEASE_LOST"@, "token mismatch or expired"@)
            },
        },
{
    match row {
        None => Err(StoreError::NotFound(String::from_str("node ").concat(node_id))),
        Some(f) => {
            if lease_ok_exec(&f, token, now_ms) {
                Ok(())
            } else {
                Err(StoreError::lease_lost("token mismatch or expired"))
            }
        },
    }
}

/// The node is owned by `actor`.
pub open spec fn owned_by(owner: Option<String>, actor: Seq<char>) -> bool {
    owner matches Some(o) && o@ == actor
}

/// A heartbeat extends the lease only for its owner, with its token, while
/// it runs; otherwise `LEASE_LOST` (`heartbeat rejected`), also when the
/// node is not there.
pub fn heartbeat_check(actor: &str, owner: Option<String>, row: Option<LeaseFields>, token: u128, now_ms: i64) -> (r: Result<(), StoreError>)
    ensures
        r is Ok <==> (owned_by(owner, actor@) && (row matches Some(f) && lease_ok(f, token, now_ms))),
        r matches Err(e) ==> is_conflict(e, "LEASE_LOST"@, "heartbeat rejected"@),
{
    let owned = match &owner {
        Some(o) => str_eq(o.as_str(), actor),
        None => false,
    };
    let ok = match &row {
        Some(f) => lease_ok_exec(f, token, now_ms),
        None => false,
    };
    if owned && ok {
        Ok(())
    } else {
        Err(StoreError::lease_lost("heartbeat rejected"))
    }
}

/// Attempt `seq_no` is a relay: it takes over the work of earlier attempts.
pub fn needs_handover(seq_no: i32) -> (r: bool)
    ensures
        r == (seq_no > 1),
{
    seq_no > 1
}

/// A relay attempt must report its handover review before it submits.
pub fn submit_gate(seq_no: i32, has_handover: bool) -> (r: Result<(), StoreError>)
    ensures
        r is Err <==> (seq_no > 1 && !has_handover),
        r matches Err(e) ==> is_conflict(e, "HANDOVER_REVIEW_REQUIRED"@, "relay attempt must call handover-review before submit"@),
{
    if needs_handover(seq_no) && !has_handover {
        Err(StoreError::handover_required())
    } else {
        Ok(())
    }
}

/// What becomes of a task whose attempt failed.
#[derive(Debug, Clone, Copy, PartialEq, Eq, Structural)]
pub enum AttemptNext {
    /// Back to ready, with the failure added to its inputs.
    Reopened,
    /// Out of attempts: failed for good.
    FailedFinal,
}

impl AttemptNext {
    pub fn as_str(self) -> (r: &'static str)
        ensures
            r@ == (match self {
                AttemptNext::Reopened => "reopened"@,
                AttemptNext::FailedFinal => "failed_final"@,
            }),
    {
        match self {
            AttemptNext::Reopened => "reopened",
            AttemptNext::FailedFinal => "failed_final",
        }
    }
}

/// A failed attempt reopens the task while attempts are left, and fails it
/// for good at the last one.
pub fn after_failed_attempt(seq_no: i32, max_attempts: i32) -> (r: AttemptNext)
    ensures
        r == (if seq_no < max_attempts { AttemptNext::Reopened } else { AttemptNext::FailedFinal }),
{
    if seq_no < max_attempts {
        AttemptNext::Reopened
    } else {
        AttemptNext::FailedFinal
    }
}

/// A lease that runs out at attempt `seq_no` fails the task for good at the
/// last attempt; before that the task goes back to ready.
pub fn lease_expiry_is_final(seq_no: i32, max_attempts: i32) -> (r: bool)
    ensures
        r == (seq_no >= max_attempts),
{
    seq_no >= max_attempts
}

/// The state the reaper leaves a task in whose lease ran out.
pub fn reaped_state(seq_no: i32, max_attempts: i32) -> (r: TaskState)
    ensures
        r == (if seq_no >= max_attempts { TaskState::Failed } else { TaskState::Ready }),
{
    if lease_expiry_is_final(seq_no, max_attempts) {
        TaskState::Failed
    } else {
        TaskState::Ready
    }
}

/// A failed attempt and a lost lease end a task at the same attempt: the
/// one fails it for good exactly when the other does, and otherwise both
/// put it back to ready.
pub proof fn lemma_failure_and_expiry_agree(seq_no: i32, max_attempts: i32)
    ensures
        (if seq_no < max_attempts { AttemptNext::Reopened } else { AttemptNext::FailedFinal }) == AttemptNext::FailedFinal
            <==> seq_no >= max_attempts,
        (seq_no >= max_attempts) == ((if seq_no >= max_attempts { TaskState::Failed } else { TaskState::Ready }) == TaskState::Failed),
{
}

/// Every state the store moves a leased task to is a legal step of the
/// task machine: the reaper's outcome, a failed attempt's outcome (ready
/// when reopened, failed when final), done on a submission, and cancelled.
pub proof fn lemma_lease_outcomes_are_legal(s: TaskState, seq_no: i32, max_attempts: i32)
    requires
        task_holds_lease(s),
    ensures
        task_step(s, if seq_no >= max_attempts { TaskState::Failed } else { TaskState::Ready }),
        task_step(s, if seq_no < max_attempts { TaskState::Ready } else { TaskState::Failed }),
        task_step(s, TaskState::Done),
        task_step(s, TaskState::Cancelled),
{
}

/// The decimal text of an integer, with a leading `-` when it is negative.
pub open spec fn int_text(n: int) -> Seq<char> {
    if n < 0 {
        "-"@ + decimal((-n) as nat)
    } else {
        decimal(n as nat)
    }
}

/// The decimal digits of `n`.
fn decimal_u64(n: u64) -> (r: Vec<char>)
    ensures
        r@ == decimal(n as nat),
    decreases n,
{
    if n < 10 {
        let d = decimal_chars(n as usize);
        d
    } else {
        let mut r = decimal_u64(n / 10);
        let d = decimal_chars((n % 10) as usize);
        assert(d@ == seq![crate::graph::digit_char((n % 10) as nat)]);
        r.push(d[0]);
        r
    }
}

/// The decimal text of an `i64`.
pub fn i64_text(n: i64) -> (r: String)
    ensures
        r@ == int_text(n as int),
{
    let mut r = String::new();
    let mag: u64;
    if n < 0 {
        r.append("-");
        let wide: i128 = n as i128;
        let m: i128 = -wide;
        mag = m as u64;
    } else {
        mag = n as u64;
    }
    let digits = decimal_u64(mag);
    let mut i: usize = 0;
    let ghost start = r@;
    while i < digits.len()
        invariant
            i <= digits@.len(),
            r@ == start + digits@.subrange(0, i as int),
        decreases digits.len() - i,
    {
        crate::text::push_char(&mut r, digits[i]);
        assert(digits@.subrange(0, i + 1) =~= digits@.subrange(0, i as int).push(digits@[i as int]));
        i = i + 1;
    }
    assert(digits@.subrange(0, digits@.len() as int) =~= digits@);
    proof {
        if n < 0 {
            reveal_strlit("-");
            assert(start == "-"@);
        } else {
            assert(start == Seq::<char>::empty());
        }
    }
    r
}

/// The commit message of a task's attempt: `task(<id>): <title> [attempt <n>]`.
pub open spec fn commit_message_text(node_id: Seq<char>, title: Seq<char>, seq_no: i32) -> Seq<char> {
    "task("@ + node_id + "): "@ + title + " [attempt "@ + int_text(seq_no as int) + "]"@
}

/// What the log is searched for to find the commit of a task: `task(<id>)`.
pub open spec fn commit_needle_text(node_id: Seq<char>) -> Seq<char> {
    "task("@ + node_id + ")"@
}

/// The commit message for a task's attempt.
pub fn commit_message(node_id: &str, title: &str, seq_no: i32) -> (r: String)
    ensures
        r@ == commit_message_text(node_id@, title@, seq_no),
{
    let n = i64_text(seq_no as i64);
    String::from_str("task(").concat(node_id).concat("): ").concat(title).concat(" [attempt ").concat(n.as_str()).concat(
        "]",
    )
}

/// The text that marks a task's commit in the log.
pub fn commit_needle(node_id: &str) -> (r: String)
    ensures
        r@ == commit_needle_text(node_id@),
{
    String::from_str("task(").concat(node_id).concat(")")
}

/// Every commit a task's attempt makes is found again by the task's needle:
/// the needle starts the message.
pub proof fn lemma_needle_starts_message(node_id: Seq<char>, title: Seq<char>, seq_no: i32)
    ensures
        commit_needle_text(node_id).is_prefix_of(commit_message_text(node_id, title, seq_no)),
{
    reveal_strlit("task(");
    reveal_strlit(")");
    reveal_strlit("): ");
    let needle = commit_needle_text(node_id);
    let msg = commit_message_text(node_id, title, seq_no);
    assert forall|i: int| 0 <= i < needle.len() implies needle[i] == msg[i] by {
        if i < 5 + node_id.len() {
            assert(needle[i] == ("task("@ + node_id)[i]);
            assert(msg[i] == ("task("@ + node_id)[i]);
        }
    }
}

/// A repeated submission finds the task's own commit: the log line its
/// commit leaves, `<hash> <message>` with a hash free of spaces, matches
/// the task's needle and yields that hash.
pub proof fn lemma_log_line_finds_commit(hash: Seq<char>, node_id: Seq<char>, title: Seq<char>, seq_no: i32)
    requires
        !hash.contains(' '),
    ensures
        line_match(hash + " "@ + commit_message_text(node_id, title, seq_no), commit_needle_text(node_id)) == Some(hash),
{
    reveal_strlit(" ");
    let msg = commit_message_text(node_id, title, seq_no);
    let needle = commit_needle_text(node_id);
    let line = hash + " "@ + msg;
    let k = hash.len() as int;
    assert(line[k] == ' ');
    assert(line.contains(' '));
    line.index_of_first_ensures(' ');
    let sp = line.index_of_first(' ')->0;
    assert forall|j: int| 0 <= j < k implies line[j] != ' ' by {
        assert(line[j] == hash[j]);
        if hash[j] == ' ' {
            assert(hash.contains(' '));
        }
    }
    assert(sp == k);
    assert(line.subrange(sp + 1, line.len() as int) =~= msg);
    lemma_needle_starts_message(node_id, title, seq_no);
    assert(msg.subrange(0, needle.len() as int) =~= needle);
    assert(occurs_at(msg, needle, 0));
    assert(contains_sub(msg, needle));
    assert(line.subrange(0, sp) =~= hash);
}

/// What becomes of a published contract version.
#[derive(Debug, Clone, Copy, PartialEq, Eq, Structural)]
pub enum ContractOutcome {
    /// A major bump waits for a human's approval.
    PendingMajor,
    Published,
}

impl ContractOutcome {
    pub fn as_str(self) -> (r: &'static str)
        ensures
            r@ == (match self {
                ContractOutcome::PendingMajor => "pending_major"@,
                ContractOutcome::Published => "published"@,
            }),
    {
        match self {
            ContractOutcome::PendingMajor => "pending_major",
            ContractOutcome::Published => "published",
        }
    }
}

/// A `major` bump is held for approval; any other bump is published.
pub fn contract_outcome(bump: &str) -> (r: ContractOutcome)
    ensures
        r == (if bump@ == "major"@ { ContractOutcome::PendingMajor } else { ContractOutcome::Published }),
{
    if str_eq(bump, "major") {
        ContractOutcome::PendingMajor
    } else {
        ContractOutcome::Published
    }
}

/// What a submission does next.
#[derive(Debug, Clone)]
pub enum SubmitStep {
    /// The task's commit is already in the log and nothing in its scope is
    /// left to commit: an earlier submit committed and did not record it.
    AlreadyCommitted { hash: String },
    /// Validation failed, with these failures.
    Failed { failures: Vec<ValidatorFailure> },
    /// Commit these paths with this message, then record the task done.
    Commit { paths: Vec<String>, message: String },
}

/// The commit a repeated submission finishes with: the task's commit from
/// the log, when there is one and no change is left in scope.
pub fn already_committed(existing: Option<String>, in_scope: &Vec<String>) -> (r: Option<String>)
    ensures
        r == (if in_scope@.len() == 0 { existing } else { None::<String> }),
{
    if in_scope.len() == 0 {
        existing
    } else {
        None
    }
}

/// The failure of a submission with nothing in scope to commit.
pub open spec fn no_change_failure() -> (Seq<char>, Seq<char>) {
    ("artifact-exists"@, "no in-scope changes to commit"@)
}

/// The failures the validators report for a submission.
pub open spec fn submit_verdicts(validators: Seq<String>, write_scope: Seq<String>, diff: ScopeDiff, probe: WorkspaceProbe) -> Seq<(Seq<char>, Seq<char>)> {
    all_verdicts(views(validators), views(write_scope), views(diff.in_scope@), views(diff.out_scope@), probe)
}

/// The validators cannot run: `cargo-check` is listed and `cargo` could not be started.
pub open spec fn cargo_unavailable(validators: Seq<String>, probe: WorkspaceProbe) -> bool {
    views(validators).contains("cargo-check"@) && probe.cargo is CouldNotRun
}

/// Decides a submission once the workspace has been split by scope and
/// probed: the validators' failures fail it; with none and nothing in scope
/// it fails as `artifact-exists`; otherwise the in-scope paths are committed.
/// When `cargo` could not be started for `cargo-check` the submission stops
/// with a git error carrying the reason.
pub fn submit_verdict(
    node_id: &str,
    title: &str,
    seq_no: i32,
    validators: &Vec<String>,
    write_scope: &Vec<String>,
    diff: &ScopeDiff,
    probe: &WorkspaceProbe,
) -> (r: Result<SubmitStep, StoreError>)
    requires
        probe.missing@.len() == diff.in_scope@.len(),
    ensures
        r is Err <==> cargo_unavailable(validators@, *probe),
        r matches Err(e) ==> (e matches StoreError::Git(m) && m@ == probe.cargo->CouldNotRun_error@),
        r matches Ok(step) ==> match step {
            SubmitStep::Failed { failures } => {
                let v = submit_verdicts(validators@, write_scope@, *diff, *probe);
                ||| v.len() > 0 && failure_views(failures@) == v
                ||| v.len() == 0 && diff.in_scope@.len() == 0 && failure_views(failures@) == seq![no_change_failure()]
            },
            SubmitStep::Commit { paths, message } => {
                &&& submit_verdicts(validators@, write_scope@, *diff, *probe).len() == 0
                &&& diff.in_scope@.len() > 0
                &&& paths@ == diff.in_scope@
                &&& message@ == commit_message_text(node_id@, title@, seq_no)
            },
            SubmitStep::AlreadyCommitted { .. } => false,
        },
{
    match run_validators(validators, write_scope, &diff.in_scope, &diff.out_scope, probe) {
        Err(e) => Err(StoreError::Git(e)),
        Ok(failures) => {
            if failures.len() > 0 {
                Ok(SubmitStep::Failed { failures })
            } else if diff.in_scope.len() == 0 {
                let f = ValidatorFailure {
                    validator: String::from_str("artifact-exists"),
                    report: String::from_str("no in-scope changes to commit"),
                };
                let mut v: Vec<ValidatorFailure> = Vec::new();
                v.push(f);
                assert(failure_views(v@) =~= seq![no_change_failure()]);
                Ok(SubmitStep::Failed { failures: v })
            } else {
                let message = commit_message(node_id, title, seq_no);
                Ok(SubmitStep::Commit { paths: diff.in_scope.clone(), message })
            }
        },
    }
}

/// The search for a task to claim. At most 64 candidates are tried, best
/// first; a candidate whose write scope overlaps a running task's is
/// skipped, and the next search leaves it out.
#[derive(Debug, Clone)]
pub struct ClaimSearch {
    /// The candidates skipped so far.
    pub skip_ids: Vec<String>,
    /// The candidates tried so far.
    pub tries: u32,
}

/// The candidate's write scope overlaps the scope of one of the running tasks.
pub open spec fn overlaps_running(scope: Seq<String>, running: Seq<Vec<String>>) -> bool {
    exists|k: int| 0 <= k < running.len() && scope_lists_conflict(views(scope), #[trigger] scope_lists(running)[k])
}

impl ClaimSearch {
    /// A search that has tried nothing.
    pub fn new() -> (r: ClaimSearch)
        ensures
            r.skip_ids@.len() == 0,
            r.tries == 0,
    {
        ClaimSearch { skip_ids: Vec::new(), tries: 0 }
    }

    /// Another candidate may be tried.
    pub fn may_try(&self) -> (r: bool)
        ensures
            r == (self.tries < 64),
    {
        self.tries < 64
    }

    /// Considers one candidate given the write scopes of the running tasks:
    /// true to claim it; false when it overlaps one, and it is skipped.
    pub fn consider(&mut self, candidate_id: &String, candidate_scope: &Vec<String>, running_scopes: &Vec<Vec<String>>) -> (take: bool)
        requires
            old(self).tries < 64,
        ensures
            take == !overlaps_running(candidate_scope@, running_scopes@),
            final(self).tries == old(self).tries + 1,
            take ==> final(self).skip_ids@ == old(self).skip_ids@,
            !take ==> final(self).skip_ids@ == old(self).skip_ids@.push(*candidate_id),
    {
        self.tries = self.tries + 1;
        if any_scope_conflict(candidate_scope, running_scopes) {
            self.skip_ids.push(candidate_id.clone());
            false
        } else {
            true
        }
    }
}

/// `path` is `root` or lies below it.
pub open spec fn in_subtree(path: Seq<char>, root: Seq<char>) -> bool {
    path == root || dotted_under(path, root)
}

/// The path of the first node, from position `i` on, whose id is `root`.
pub open spec fn root_path_from(nodes: Seq<(String, String)>, root: Seq<char>, i: int) -> Option<Seq<char>>
    decreases nodes.len() - i,
{
    if i < 0 || i >= nodes.len() {
        None
    } else if nodes[i].0@ == root {
        Some(nodes[i].1@)
    } else {
        root_path_from(nodes, root, i + 1)
    }
}

/// Whether a node with `path` is shown when the graph is read from `root`:
/// all are shown without a root, or when no node has the root's id.
pub open spec fn shown(nodes: Seq<(String, String)>, root: Option<String>, path: Seq<char>) -> bool {
    match root {
        None => true,
        Some(r) => match root_path_from(nodes, r@, 0) {
            None => true,
            Some(rp) => in_subtree(path, rp),
        },
    }
}

fn first_root_path(nodes: &Vec<(String, String)>, root: &String) -> (rp: Option<Vec<char>>)
    ensures
        match rp {
            None => root_path_from(nodes@, root@, 0) is None,
            Some(v) => root_path_from(nodes@, root@, 0) == Some(v@),
        },
{
    let mut i: usize = 0;
    while i < nodes.len()
        invariant
            i <= nodes@.len(),
            root_path_from(nodes@, root@, 0) == root_path_from(nodes@, root@, i as int),
        decreases nodes.len() - i,
    {
        if str_eq(nodes[i].0.as_str(), root.as_str()) {
            return Some(chars_of(nodes[i].1.as_str()));
        }
        i = i + 1;
    }
    None
}

/// For each (id, path) node, whether it is shown when the graph is read
/// from `root`.
pub fn subtree_filter(nodes: &Vec<(String, String)>, root: Option<String>) -> (keep: Vec<bool>)
    ensures
        keep@.len() == nodes@.len(),
        forall|k: int| 0 <= k < nodes@.len() ==> keep@[k] == shown(nodes@, root, #[trigger] nodes@[k].1@),
{
    let rp: Option<Vec<char>> = match &root {
        None => None,
        Some(r) => first_root_path(nodes, r),
    };
    let ghost target: Option<Seq<char>> = match root {
        None => None,
        Some(r) => root_path_from(nodes@, r@, 0),
    };
    assert(match rp {
        None => target is None,
        Some(v) => target == Some(v@),
    });
    let dotted: Option<Vec<char>> = match &rp {
        None => None,
        Some(v) => Some(chars_push(v, '.')),
    };
    let mut keep: Vec<bool> = Vec::new();
    let mut k: usize = 0;
    while k < nodes.len()
        invariant
            k <= nodes@.len(),
            keep@.len() == k,
            match rp {
                None => target is None,
                Some(v) => target == Some(v@) && (dotted matches Some(d) && d@ == v@.push('.')),
            },
            target == match root {
                None => None,
                Some(r) => root_path_from(nodes@, r@, 0),
            },
            forall|j: int| 0 <= j < k ==> keep@[j] == shown(nodes@, root, #[trigger] nodes@[j].1@),
        decreases nodes.len() - k,
    {
        let show = match (&rp, &dotted) {
            (Some(v), Some(d)) => {
                let p = chars_of(nodes[k].1.as_str());
                crate::text::chars_eq(&p, v) || chars_starts_with(&p, d)
            },
            _ => true,
        };
        keep.push(show);
        k = k + 1;
    }
    keep
}

/// Why a publish is refused.
#[derive(Debug, Clone)]
pub enum PublishRefused {
    /// The publish was based on another version: `STALE_GRAPH_VERSION`.
    Stale(StoreError),
    /// The publish breaks rules: `GRAPH_INVALID`, with `<n> violation(s)` as
    /// message and the report.
    Invalid { message: String, report: ValidationReport },
}

/// Checks a publish against the current version and the graph's rules; when
/// it passes, the version it creates.
pub fn publish_gate(snapshot: &GraphSnapshot, input: &PublishInput, current: i64) -> (r: Result<i64, PublishRefused>)
    requires
        snapshot_wf(*snapshot),
        current < i64::MAX,
    ensures
        input.base_version != current ==> (r matches Err(PublishRefused::Stale(e)) && is_conflict(
            e,
            "STALE_GRAPH_VERSION"@,
            "base_version "@ + int_text(input.base_version as int) + " != current "@ + int_text(current as int),
        )),
        input.base_version == current ==> match r {
            Ok(v) => v == current + 1 && publish_report(*snapshot, *input, Seq::empty()),
            Err(PublishRefused::Invalid { message, report }) => {
                &&& report.violations@.len() > 0
                &&& publish_report(*snapshot, *input, report_view(report.violations@))
                &&& message@ == int_text(report.violations@.len() as int) + " violation(s)"@
            },
            Err(PublishRefused::Stale(_)) => false,
        },
{
    if input.base_version != current {
        let msg = String::from_str("base_version ").concat(i64_text(input.base_version).as_str()).concat(
            " != current ",
        ).concat(i64_text(current).as_str());
        return Err(PublishRefused::Stale(StoreError::stale_graph(msg.as_str())));
    }
    let report = validate_publish(snapshot, input);
    if report.is_ok() {
        assert(report_view(report.violations@) =~= Seq::<crate::graph::ViolationView>::empty());
        Ok(current + 1)
    } else {
        let n = report.violations.len();
        let digits = decimal_u64(n as u64);
        let message = crate::text::string_of(&digits).concat(" violation(s)");
        Err(PublishRefused::Invalid { message, report })
    }
}

/// The path given for the first draft, from position `i` on, whose id is `id`.
pub open spec fn draft_path_from(ups: Seq<NodeDraft>, id: Seq<char>, i: int) -> Option<Seq<char>>
    decreases ups.len() - i,
{
    if i < 0 || i >= ups.len() {
        None
    } else if ups[i].id@ == id {
        match ups[i].path {
            Some(p) => Some(p@),
            None => None,
        }
    } else {
        draft_path_from(ups, id, i + 1)
    }
}

/// The path a published node is stored under. Below a parent whose path is
/// known (stored, or else given for the parent in the same publish), it is
/// the parent's path, a dot and the node's short id; otherwise the path the
/// draft gives, or else `<parent id>.<id>` under a parent, or the id alone.
pub open spec fn stored_path(n: NodeDraft, stored_parent_path: Option<String>, ups: Seq<NodeDraft>) -> Seq<char> {
    let given = match n.path {
        Some(p) => p@,
        None => match n.parent_id {
            Some(pid) => pid@ + "."@ + n.id@,
            None => n.id@,
        },
    };
    match n.parent_id {
        Some(pid) => {
            let parent = match stored_parent_path {
                Some(p) => Some(p@),
                None => draft_path_from(ups, pid@, 0),
            };
            match parent {
                Some(pp) => pp + "."@ + short_form(n.id@),
                None => given,
            }
        },
        None => given,
    }
}

fn first_draft_path(ups: &Vec<NodeDraft>, id: &String) -> (r: Option<String>)
    ensures
        match r {
            None => draft_path_from(ups@, id@, 0) is None,
            Some(p) => draft_path_from(ups@, id@, 0) == Some(p@),
        },
{
    let mut i: usize = 0;
    while i < ups.len()
        invariant
            i <= ups@.len(),
            draft_path_from(ups@, id@, 0) == draft_path_from(ups@, id@, i as int),
        decreases ups.len() - i,
    {
        if str_eq(ups[i].id.as_str(), id.as_str()) {
            return match &ups[i].path {
                Some(p) => Some(p.clone()),
                None => None,
            };
        }
        i = i + 1;
    }
    None
}

/// The path to store a published node under, given the stored path of its
/// parent, when there is one.
pub fn node_path(n: &NodeDraft, stored_parent_path: Option<String>, ups: &Vec<NodeDraft>) -> (r: String)
    ensures
        r@ == stored_path(*n, stored_parent_path, ups@),
{
    let given = match &n.path {
        Some(p) => p.clone(),
        None => match &n.parent_id {
            Some(pid) => pid.clone().concat(".").concat(n.id.as_str()),
            None => n.id.clone(),
        },
    };
    match &n.parent_id {
        None => given,
        Some(pid) => {
            let parent: Option<String> = match stored_parent_path {
                Some(p) => Some(p),
                None => first_draft_path(ups, pid),
            };
            match parent {
                Some(pp) => pp.concat(".").concat(short_id(n.id.as_str()).as_str()),
                None => given,
            }
        },
    }
}

/// The state a published node starts in: todo for a task, none otherwise.
pub fn initial_task_state(kind: &str) -> (r: Option<TaskState>)
    ensures
        r == (if kind@ == "task"@ { Some(TaskState::Todo) } else { None::<TaskState> }),
{
    if str_eq(kind, "task") {
        Some(TaskState::Todo)
    } else {
        None
    }
}

/// The entries of a list that are strings, in order.
pub open spec fn string_entries(a: Seq<Option<String>>) -> Seq<Seq<char>>
    decreases a.len(),
{
    if a.len() == 0 {
        Seq::empty()
    } else {
        match a.last() {
            Some(s) => string_entries(a.drop_last()).push(s@),
            None => string_entries(a.drop_last()),
        }
    }
}

/// The paths a handover review asks to restore: when its decision is
/// `discard_and_redo` and it lists `discarded_paths`, the entries of that
/// list that are strings; otherwise none.
pub fn paths_to_discard(decision: Option<String>, discarded: Option<Vec<Option<String>>>) -> (r: Option<Vec<String>>)
    ensures
        match (decision, discarded) {
            (Some(d), Some(a)) if d@ == "discard_and_redo"@ => r matches Some(v) && views(v@) == string_entries(a@),
            _ => r is None,
        },
{
    let redo = match &decision {
        Some(d) => str_eq(d.as_str(), "discard_and_redo"),
        None => false,
    };
    if !redo {
        return None;
    }
    match discarded {
        None => None,
        Some(a) => {
            let mut v: Vec<String> = Vec::new();
            let mut i: usize = 0;
            while i < a.len()
                invariant
                    i <= a@.len(),
                    views(v@) == string_entries(a@.subrange(0, i as int)),
                decreases a.len() - i,
            {
                let pre = Ghost(a@.subrange(0, i + 1));
                assert(pre@.drop_last() =~= a@.subrange(0, i as int));
                assert(pre@.last() == a@[i as int]);
                match &a[i] {
                    Some(p) => {
                        let ghost before = views(v@);
                        v.push(p.clone());
                        assert(views(v@) =~= before.push(p@));
                    },
                    None => {},
                }
                i = i + 1;
            }
            assert(a@.subrange(0, a@.len() as int) =~= a@);
            Some(v)
        },
    }
}

/// The digest recorded for an artifact: the tree digest of its paths when
/// it could be computed, else the commit hash.
pub fn artifact_digest(tree_digest: Option<String>, commit_hash: &str) -> (r: String)
    ensures
        r@ == (match tree_digest {
            Some(d) => d@,
            None => commit_hash@,
        }),
{
    match tree_digest {
        Some(d) => d,
        None => String::from_str(commit_hash),
    }
}

/// The inputs entry that tells a reopened task why its previous attempt
/// failed (JSON text of the object), given the failure as JSON text.
pub open spec fn previous_failure_entry(failure: Seq<char>) -> Seq<char> {
    "{\"failure\":"@ + failure + ",\"type\":\"previous_failure\"}"@
}

/// The inputs of a reopened task, as the JSON texts of their items: the
/// items it had (none when its inputs were not a list), then the entry for
/// the failure.
pub fn inject_failure_inputs(inputs: Option<Vec<String>>, failure: &str) -> (r: Vec<String>)
    ensures
        views(r@) == (match inputs {
            Some(v) => views(v@),
            None => Seq::<Seq<char>>::empty(),
        }).push(previous_failure_entry(failure@)),
{
    let mut items = match inputs {
        Some(v) => v,
        None => Vec::new(),
    };
    let ghost before = views(items@);
    let entry = String::from_str("{\"failure\":").concat(failure).concat(",\"type\":\"previous_failure\"}");
    items.push(entry);
    assert(views(items@) =~= before.push(previous_failure_entry(failure@)));
    items
}

} // verus!
