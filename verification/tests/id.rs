use sunmao::id::{new_event_id, new_id};

#[test]
fn prefixes_and_length() {
    let id = new_id("nd_");
    assert!(id.starts_with("nd_"));
    assert!(id.len() > 10);
}

#[test]
fn ids_are_prefix_and_26_crockford_chars() {
    let id = new_id("pj_");
    assert_eq!(id.len(), 3 + 26);
    assert!(id[3..].chars().all(|c| c.is_ascii_digit() || (c.is_ascii_uppercase() && !"ILOU".contains(c))));
    let ev = new_event_id();
    assert!(ev.starts_with("ev_"));
    assert_eq!(ev.len(), 29);
    assert_ne!(new_id("nd_"), new_id("nd_"));
}
