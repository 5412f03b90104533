use sunmao::impact::downstream_of;

fn edges(es: &[(&str, &str)]) -> Vec<(String, String)> {
    es.iter().map(|(a, b)| (a.to_string(), b.to_string())).collect()
}

#[test]
fn downstream_follows_edges_transitively() {
    let e = edges(&[("a", "b"), ("b", "c"), ("x", "y"), ("c", "d")]);
    let mut got = downstream_of(&"a".to_string(), &e);
    got.sort();
    assert_eq!(got, vec!["b", "c", "d"]);
    assert!(downstream_of(&"d".to_string(), &e).is_empty());
}

#[test]
fn diamond_lists_a_node_once_per_edge_into_it() {
    let e = edges(&[("a", "b"), ("a", "c"), ("b", "d"), ("c", "d")]);
    let got = downstream_of(&"a".to_string(), &e);
    assert_eq!(got, vec!["b", "c", "d", "d"]);
}

#[test]
fn cycles_terminate_and_include_the_start_when_it_is_reached() {
    let e = edges(&[("a", "b"), ("b", "a")]);
    let mut got = downstream_of(&"a".to_string(), &e);
    got.sort();
    assert_eq!(got, vec!["a", "b"]);
}
