use sunmao::cli::{
    api_base, choose_base_url, known_project, local_bind_toml, pick_listed, picker_step, tree_line, urlencoding_simple, Key,
    LineEdit, ListPick, EditStep, PickerStep, ProjectRow,
};

#[test]
fn url_encoding_keeps_safe_bytes() {
    assert_eq!(urlencoding_simple("/home/u/my repo"), "/home/u/my%20repo");
    assert_eq!(urlencoding_simple("a-b_c.d~e"), "a-b_c.d~e");
    assert_eq!(urlencoding_simple("é"), "%C3%A9");
    assert_eq!(urlencoding_simple("中"), "%E4%B8%AD");
    assert_eq!(urlencoding_simple("😀"), "%F0%9F%98%80");
    assert_eq!(urlencoding_simple("a&b=c"), "a%26b%3Dc");
}

#[test]
fn picker_moves_and_chooses() {
    assert_eq!(picker_step(0, 3, Key::Down), PickerStep::Select(1));
    assert_eq!(picker_step(2, 3, Key::Char('j')), PickerStep::Select(2));
    assert_eq!(picker_step(0, 3, Key::Up), PickerStep::Select(0));
    assert_eq!(picker_step(2, 3, Key::Char('k')), PickerStep::Select(1));
    assert_eq!(picker_step(1, 3, Key::Enter), PickerStep::Chosen(1));
    assert_eq!(picker_step(1, 3, Key::Esc), PickerStep::Cancelled);
    assert_eq!(picker_step(1, 3, Key::Char('q')), PickerStep::Cancelled);
    assert_eq!(picker_step(1, 3, Key::Char('x')), PickerStep::Select(1));
    let rows = vec![ProjectRow { id: "pj_1".into(), name: "n".into(), repo_path: "/r".into() }];
    assert_eq!(rows[0].id, "pj_1");
}

#[test]
fn line_editor() {
    let mut e = LineEdit::new("http://x");
    assert_eq!(e.cursor, 8);
    assert_eq!(e.step(Key::Backspace), EditStep::Continue);
    assert_eq!(e.text(), "http://");
    e.step(Key::Left);
    e.step(Key::Char('!'));
    assert_eq!(e.text(), "http:/!/");
    e.step(Key::Right);
    e.step(Key::Right);
    assert_eq!(e.cursor, 8);
    assert_eq!(e.step(Key::Enter), EditStep::Save);
    assert_eq!(e.step(Key::Esc), EditStep::Cancel);
    let mut z = LineEdit::new("");
    z.step(Key::Backspace);
    z.step(Key::Left);
    assert_eq!((z.text(), z.cursor), (String::new(), 0));
}

#[test]
fn project_resolution() {
    assert_eq!(known_project(Some("a".into()), Some("b".into()), Some("c".into())), Some("a".into()));
    assert_eq!(known_project(None, Some("b".into()), Some("c".into())), Some("b".into()));
    assert_eq!(known_project(None, None, Some("c".into())), Some("c".into()));
    assert_eq!(known_project(None, None, None), None);
    match pick_listed(0, None, false) {
        ListPick::Fail(m) => assert_eq!(m, "no projects; run `sunmao init` in a git repo"),
        other => panic!("{other:?}"),
    }
    assert!(matches!(pick_listed(1, Some("pj".into()), true), ListPick::Chosen(ref s) if s == "pj"));
    assert!(matches!(pick_listed(1, None, false), ListPick::Fail(ref s) if s == "id"));
    assert!(matches!(pick_listed(2, None, true), ListPick::Fail(_)));
    assert!(matches!(pick_listed(2, None, false), ListPick::Interactive));
}

#[test]
fn texts() {
    assert_eq!(choose_base_url(Some("a".into()), Some("b".into())), "a");
    assert_eq!(choose_base_url(None, Some("b".into())), "b");
    assert_eq!(choose_base_url(None, None), "http://127.0.0.1:7420");
    assert_eq!(api_base("http://h:1//"), "http://h:1");
    assert_eq!(local_bind_toml("pj_1", "http://h"), "project_id = \"pj_1\"\nbase_url = \"http://h\"\n");
    let line = tree_line(&Some("task".into()), &None, &Some("active".into()), &Some("a.b".into()), &Some("nd".into()), &None);
    assert_eq!(line, "task\tactive\ta.b\tnd\t?");
    let line = tree_line(&None, &Some("done".into()), &None, &None, &None, &Some("T".into()));
    assert_eq!(line, "?\tdone\t\t?\tT");
    assert_eq!(tree_line(&None, &None, &None, &None, &None, &None), "?\t-\t\t?\t?");
}
