use sunmao::git::{
    any_scope_conflict, find_commit_in_log, log_contains, parse_status_porcelain, partition_entries, split_work_in_progress,
    GitWorkspace,
};

#[test]
fn porcelain_lines_become_entries() {
    let out = " M src/lib.rs\n?? docs/new.md\nR  old.rs -> src/new.rs\nxx\n A  spaced.rs  \n";
    let entries = parse_status_porcelain(out);
    let got: Vec<(String, String)> = entries.iter().map(|e| (e.status.clone(), e.path.clone())).collect();
    assert_eq!(
        got,
        vec![
            (" M".to_string(), "src/lib.rs".to_string()),
            ("??".to_string(), "docs/new.md".to_string()),
            ("R ".to_string(), "src/new.rs".to_string()),
            (" A".to_string(), "spaced.rs".to_string()),
        ]
    );
}

#[test]
fn partition_ignores_neighbours() {
    let entries = parse_status_porcelain(" M src/a.rs\n M other/b.rs\n M mine/c.rs\n");
    let diff = partition_entries(&entries, &vec!["mine/".to_string()], &vec![vec!["other/".to_string()]]);
    assert_eq!(diff.in_scope, vec!["mine/c.rs".to_string()]);
    assert_eq!(diff.out_scope, vec!["src/a.rs".to_string()]);
    let (modified, untracked) = split_work_in_progress(&parse_status_porcelain(" M mine/a\n?? mine/b\n?? x/c\n"), &vec!["mine/".to_string()]);
    assert_eq!(modified, vec!["mine/a".to_string()]);
    assert_eq!(untracked, vec!["mine/b".to_string()]);
}

#[test]
fn log_search() {
    let log = "abc123 task(nd_a): A [attempt 1]\ndef456 fix\n";
    assert_eq!(find_commit_in_log(log, "task(nd_a)"), Some("abc123".to_string()));
    assert_eq!(find_commit_in_log(log, "task(nd_b)"), None);
    assert!(log_contains("x task(nd_a) y\n", "task(nd_a)"));
    assert!(!log_contains("nothing\n", "task(nd_a)"));
    let ws = GitWorkspace::new("/tmp/repo".to_string());
    assert_eq!(ws.path(), "/tmp/repo");
    assert!(any_scope_conflict(&vec!["a/".to_string()], &vec![vec!["b/".to_string()], vec!["a/x".to_string()]]));
    assert!(!any_scope_conflict(&vec!["a/".to_string()], &vec![vec!["b/".to_string()]]));
}
