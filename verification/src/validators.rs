//! Built-in validators: scope-diff / cmd / artifact-exists / cargo-check / true.
//! What the workspace holds is probed by the caller; the verdicts are decided here.
use vstd::prelude::*;
use crate::text::{str_eq, views};

verus! {

/// A validator that failed, with its report.
#[derive(Debug, Clone)]
pub struct ValidatorFailure {
    pub validator: String,
    pub report: String,
}

/// What `cargo check --quiet` gave in the workspace.
#[derive(Debug, Clone)]
pub enum CargoOutcome {
    /// The workspace has no `Cargo.toml`: nothing is checked.
    NotACrate,
    Passed,
    /// The check failed, with what it wrote to stderr.
    Failed { stderr: String },
    /// `cargo` could not be started, with the reason.
    CouldNotRun { error: String },
}

/// What the validators need to know of the workspace.
#[derive(Debug, Clone)]
pub struct WorkspaceProbe {
    /// For each in-scope path, in order: the file does not exist.
    pub missing: Vec<bool>,
    pub cargo: CargoOutcome,
}

/// `format!("{:?}", list)` of a list of strings.
pub uninterp spec fn debug_list_text(list: Seq<Seq<char>>) -> Seq<char>;

/// The `Debug` rendering of a list of strings (`format!("{:?}", v)`): the
/// result is named by `debug_list_text`, a function of the list alone; how
/// `Debug` escapes characters is not stated.
#[verifier::external_body]
fn debug_list(v: &Vec<String>) -> (r: String)
    ensures
        r@ == debug_list_text(views(v@)),
{
    format!("{:?}", v)
}

/// The parts joined with `sep` between them.
pub open spec fn join(parts: Seq<Seq<char>>, sep: Seq<char>) -> Seq<char>
    decreases parts.len(),
{
    if parts.len() == 0 {
        Seq::empty()
    } else if parts.len() == 1 {
        parts[0]
    } else {
        join(parts.drop_last(), sep) + sep + parts.last()
    }
}

/// `parts.join(sep)`.
pub fn join_strings(parts: &Vec<String>, sep: &str) -> (r: String)
    ensures
        r@ == join(views(parts@), sep@),
{
    let mut r = String::new();
    let mut i: usize = 0;
    while i < parts.len()
        invariant
            i <= parts@.len(),
            r@ == join(views(parts@).subrange(0, i as int), sep@),
        decreases parts.len() - i,
    {
        let ghost pre = views(parts@).subrange(0, i + 1);
        proof {
            assert(pre.drop_last() =~= views(parts@).subrange(0, i as int));
            assert(pre.last() == parts@[i as int]@);
        }
        if i == 0 {
            r = parts[i].clone();
            assert(r@ == join(pre, sep@));
        } else {
            r.append(sep);
            r.append(parts[i].as_str());
        }
        i = i + 1;
    }
    assert(views(parts@).subrange(0, parts@.len() as int) =~= views(parts@));
    r
}

/// The report of writes outside the declared scope.
pub open spec fn scope_diff_report(outs: Seq<Seq<char>>, ws: Seq<Seq<char>>) -> Seq<char> {
    "越界写入: "@ + join(outs, ", "@) + " 不在声明范围 "@ + debug_list_text(ws)
}

/// The artifact-exists failures of the first `n` in-scope paths.
pub open spec fn missing_failures(ins: Seq<Seq<char>>, missing: Seq<bool>, n: int) -> Seq<(Seq<char>, Seq<char>)>
    decreases n,
{
    if n <= 0 {
        Seq::empty()
    } else {
        missing_failures(ins, missing, n - 1) + if missing[n - 1] {
            seq![("artifact-exists"@, "missing artifact path: "@ + ins[n - 1])]
        } else {
            Seq::empty()
        }
    }
}

/// What one validator reports.
pub open spec fn validator_verdict(
    name: Seq<char>,
    ws: Seq<Seq<char>>,
    ins: Seq<Seq<char>>,
    outs: Seq<Seq<char>>,
    probe: WorkspaceProbe,
) -> Seq<(Seq<char>, Seq<char>)> {
    if name == "scope-diff"@ {
        if outs.len() > 0 {
            seq![("scope-diff"@, scope_diff_report(outs, ws))]
        } else {
            Seq::empty()
        }
    } else if name == "artifact-exists"@ {
        missing_failures(ins, probe.missing@, ins.len() as int)
    } else if name == "cargo-check"@ {
        match probe.cargo {
            CargoOutcome::Failed { stderr } => seq![("cargo-check"@, stderr@)],
            _ => Seq::empty(),
        }
    } else if name == "cmd"@ || name == "true"@ {
        Seq::empty()
    } else {
        seq![(name, "validator not implemented at runtime: "@ + name)]
    }
}

/// The reports of the first `n` validators, in order.
pub open spec fn verdicts(
    names: Seq<Seq<char>>,
    ws: Seq<Seq<char>>,
    ins: Seq<Seq<char>>,
    outs: Seq<Seq<char>>,
    probe: WorkspaceProbe,
    n: int,
) -> Seq<(Seq<char>, Seq<char>)>
    decreases n,
{
    if n <= 0 {
        Seq::empty()
    } else {
        verdicts(names, ws, ins, outs, probe, n - 1) + validator_verdict(names[n - 1], ws, ins, outs, probe)
    }
}

/// Every failure: the listed validators in order, then an implicit
/// scope-diff when none is listed and something was written out of scope.
pub open spec fn all_verdicts(
    names: Seq<Seq<char>>,
    ws: Seq<Seq<char>>,
    ins: Seq<Seq<char>>,
    outs: Seq<Seq<char>>,
    probe: WorkspaceProbe,
) -> Seq<(Seq<char>, Seq<char>)> {
    verdicts(names, ws, ins, outs, probe, names.len() as int) + if !names.contains("scope-diff"@) && outs.len() > 0 {
        seq![("scope-diff"@, scope_diff_report(outs, ws))]
    } else {
        Seq::empty()
    }
}

/// Validator and report of each failure.
pub open spec fn failure_views(v: Seq<ValidatorFailure>) -> Seq<(Seq<char>, Seq<char>)> {
    v.map_values(|f: ValidatorFailure| (f.validator@, f.report@))
}

fn scope_diff_failure(out_scope_paths: &Vec<String>, write_scope: &Vec<String>) -> (r: ValidatorFailure)
    ensures
        (r.validator@, r.report@) == ("scope-diff"@, scope_diff_report(views(out_scope_paths@), views(write_scope@))),
{
    let mut report = String::from_str("越界写入: ");
    let joined = join_strings(out_scope_paths, ", ");
    report.append(joined.as_str());
    report.append(" 不在声明范围 ");
    let dbg = debug_list(write_scope);
    report.append(dbg.as_str());
    ValidatorFailure { validator: String::from_str("scope-diff"), report }
}

/// The failures of one validator.
fn run_one(
    name: &String,
    write_scope: &Vec<String>,
    in_scope_paths: &Vec<String>,
    out_scope_paths: &Vec<String>,
    probe: &WorkspaceProbe,
) -> (r: Vec<ValidatorFailure>)
    requires
        probe.missing@.len() == in_scope_paths@.len(),
    ensures
        failure_views(r@) == validator_verdict(name@, views(write_scope@), views(in_scope_paths@), views(out_scope_paths@), *probe),
{
    let mut r: Vec<ValidatorFailure> = Vec::new();
    if str_eq(name.as_str(), "scope-diff") {
        if out_scope_paths.len() > 0 {
            r.push(scope_diff_failure(out_scope_paths, write_scope));
        }
    } else if str_eq(name.as_str(), "artifact-exists") {
        let mut i: usize = 0;
        assert(failure_views(r@) =~= Seq::<(Seq<char>, Seq<char>)>::empty());
        while i < in_scope_paths.len()
            invariant
                i <= in_scope_paths@.len(),
                probe.missing@.len() == in_scope_paths@.len(),
                failure_views(r@) == missing_failures(views(in_scope_paths@), probe.missing@, i as int),
            decreases in_scope_paths.len() - i,
        {
            if probe.missing[i] {
                let report = String::from_str("missing artifact path: ").concat(in_scope_paths[i].as_str());
                let f = ValidatorFailure { validator: String::from_str("artifact-exists"), report };
                let ghost before = failure_views(r@);
                r.push(f);
                assert(failure_views(r@) =~= before.push((f.validator@, f.report@)));
            }
            assert(views(in_scope_paths@)[i as int] == in_scope_paths@[i as int]@);
            assert(failure_views(r@) =~= missing_failures(views(in_scope_paths@), probe.missing@, i + 1));
            i = i + 1;
        }
        return r;
    } else if str_eq(name.as_str(), "cargo-check") {
        match &probe.cargo {
            CargoOutcome::Failed { stderr } => {
                r.push(ValidatorFailure { validator: String::from_str("cargo-check"), report: stderr.clone() });
            },
            _ => {},
        }
    } else if str_eq(name.as_str(), "cmd") || str_eq(name.as_str(), "true") {
    } else {
        let report = String::from_str("validator not implemented at runtime: ").concat(name.as_str());
        r.push(ValidatorFailure { validator: name.clone(), report });
    }
    assert(failure_views(r@) =~= validator_verdict(name@, views(write_scope@), views(in_scope_paths@), views(out_scope_paths@), *probe));
    r
}

/// Runs the named validators against a submission, given what the workspace holds.
/// When `cargo-check` is listed and `cargo` could not be started, the run
/// stops with that error.
pub fn run_validators(
    names: &Vec<String>,
    write_scope: &Vec<String>,
    in_scope_paths: &Vec<String>,
    out_scope_paths: &Vec<String>,
    probe: &WorkspaceProbe,
) -> (r: Result<Vec<ValidatorFailure>, String>)
    requires
        probe.missing@.len() == in_scope_paths@.len(),
    ensures
        match r {
            Ok(v) => !(views(names@).contains("cargo-check"@) && probe.cargo is CouldNotRun)
                && failure_views(v@) == all_verdicts(views(names@), views(write_scope@), views(in_scope_paths@), views(out_scope_paths@), *probe),
            Err(e) => views(names@).contains("cargo-check"@) && probe.cargo is CouldNotRun
                && e@ == probe.cargo->CouldNotRun_error@,
        },
{
    let ghost nv = views(names@);
    let mut failures: Vec<ValidatorFailure> = Vec::new();
    let mut listed = false;
    assert(failure_views(failures@) =~= Seq::<(Seq<char>, Seq<char>)>::empty());
    let mut i: usize = 0;
    while i < names.len()
        invariant
            i <= names@.len(),
            nv == views(names@),
            probe.missing@.len() == in_scope_paths@.len(),
            failure_views(failures@) == verdicts(nv, views(write_scope@), views(in_scope_paths@), views(out_scope_paths@), *probe, i as int),
            listed == nv.subrange(0, i as int).contains("scope-diff"@),
            probe.cargo is CouldNotRun ==> !nv.subrange(0, i as int).contains("cargo-check"@),
        decreases names.len() - i,
    {
        if str_eq(names[i].as_str(), "cargo-check") {
            if let CargoOutcome::CouldNotRun { error } = &probe.cargo {
                proof {
                    assert(nv[i as int] == names@[i as int]@);
                    assert(nv[i as int] == "cargo-check"@);
                }
                return Err(error.clone());
            }
        }
        proof {
            let pre = nv.subrange(0, i + 1);
            assert(pre =~= nv.subrange(0, i as int).push(nv[i as int]));
            if probe.cargo is CouldNotRun && pre.contains("cargo-check"@) {
                let k = choose|k: int| 0 <= k < i + 1 && pre[k] == "cargo-check"@;
                if k < i {
                    assert(nv.subrange(0, i as int)[k] == "cargo-check"@);
                } else {
                    assert(nv[i as int] == names@[i as int]@);
                }
            }
        }
        let mut f = run_one(&names[i], write_scope, in_scope_paths, out_scope_paths, probe);
        let ghost before = failure_views(failures@);
        let ghost fv = failure_views(f@);
        failures.append(&mut f);
        assert(failure_views(failures@) =~= before + fv);
        let is_scope = str_eq(names[i].as_str(), "scope-diff");
        if is_scope {
            listed = true;
        }
        proof {
            assert(nv[i as int] == names@[i as int]@);
            let pre = nv.subrange(0, i + 1);
            assert(pre =~= nv.subrange(0, i as int).push(nv[i as int]));
            if nv.subrange(0, i as int).contains("scope-diff"@) {
                let k = choose|k: int| 0 <= k < i && nv.subrange(0, i as int)[k] == "scope-diff"@;
                assert(pre[k] == "scope-diff"@);
            }
            if is_scope {
                assert(pre[i as int] == "scope-diff"@);
            }
            if pre.contains("scope-diff"@) {
                let k = choose|k: int| 0 <= k < i + 1 && pre[k] == "scope-diff"@;
                if k < i {
                    assert(nv.subrange(0, i as int)[k] == "scope-diff"@);
                }
            }
            assert(listed == pre.contains("scope-diff"@));
        }
        i = i + 1;
    }
    assert(nv.subrange(0, names@.len() as int) =~= nv);
    if !listed && out_scope_paths.len() > 0 {
        let f = scope_diff_failure(out_scope_paths, write_scope);
        let ghost before = failure_views(failures@);
        failures.push(f);
        assert(failure_views(failures@) =~= before.push((f.validator@, f.report@)));
    }
    assert(failure_views(failures@) =~= all_verdicts(views(names@), views(write_scope@), views(in_scope_paths@), views(out_scope_paths@), *probe));
    Ok(failures)
}

} // verus!
