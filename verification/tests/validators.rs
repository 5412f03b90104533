use sunmao::validators::{join_strings, run_validators, CargoOutcome, WorkspaceProbe};

fn s(v: &[&str]) -> Vec<String> {
    v.iter().map(|x| x.to_string()).collect()
}

#[test]
fn scope_diff_reports_out_of_scope_writes() {
    let probe = WorkspaceProbe { missing: vec![], cargo: CargoOutcome::NotACrate };
    let f = run_validators(&s(&["scope-diff"]), &s(&["a/"]), &vec![], &s(&["b/x", "c/y"]), &probe).unwrap();
    assert_eq!(f.len(), 1);
    assert_eq!(f[0].validator, "scope-diff");
    assert_eq!(f[0].report, "越界写入: b/x, c/y 不在声明范围 [\"a/\"]");
}

#[test]
fn implicit_scope_diff_when_not_listed() {
    let probe = WorkspaceProbe { missing: vec![], cargo: CargoOutcome::NotACrate };
    let f = run_validators(&s(&["true"]), &s(&["a/"]), &vec![], &s(&["b/x"]), &probe).unwrap();
    assert_eq!(f.len(), 1);
    assert_eq!(f[0].validator, "scope-diff");
    assert!(run_validators(&s(&["true", "cmd"]), &s(&["a/"]), &vec![], &vec![], &probe).unwrap().is_empty());
}

#[test]
fn artifacts_cargo_and_unknown() {
    let probe = WorkspaceProbe { missing: vec![false, true], cargo: CargoOutcome::Failed { stderr: "E0308".into() } };
    let f = run_validators(&s(&["artifact-exists", "cargo-check", "lint"]), &s(&["a/"]), &s(&["a/1", "a/2"]), &vec![], &probe).unwrap();
    let got: Vec<(String, String)> = f.iter().map(|x| (x.validator.clone(), x.report.clone())).collect();
    assert_eq!(
        got,
        vec![
            ("artifact-exists".to_string(), "missing artifact path: a/2".to_string()),
            ("cargo-check".to_string(), "E0308".to_string()),
            ("lint".to_string(), "validator not implemented at runtime: lint".to_string()),
        ]
    );
    let down = WorkspaceProbe { missing: vec![], cargo: CargoOutcome::CouldNotRun { error: "spawn".into() } };
    assert_eq!(run_validators(&s(&["cargo-check"]), &vec![], &vec![], &vec![], &down).unwrap_err(), "spawn");
    let passed = WorkspaceProbe { missing: vec![], cargo: CargoOutcome::Passed };
    assert!(run_validators(&s(&["cargo-check"]), &vec![], &vec![], &vec![], &passed).unwrap().is_empty());
    assert_eq!(join_strings(&s(&["x", "y", "z"]), "; "), "x; y; z");
}
