use graph::{Properties, PropsError, Value};

#[test]
fn set_get_and_overwrite() {
    let mut p = Properties::new();
    assert!(p.get("label").is_none());
    p.set("label", Value::text("first"));
    assert_eq!(p.get("label"), Some(&Value::Text("first".to_string())));
    p.set("label", Value::text("second"));
    assert_eq!(p.get("label"), Some(&Value::Text("second".to_string())));
}

#[test]
fn indexed_read_of_missing_key_fails_with_key_not_found() {
    let mut p = Properties::new();
    assert_eq!(p.get_required("nope"), Err(PropsError::KeyNotFound));
    p.set("nope", Value::Int(3));
    assert_eq!(p.get_required("nope"), Ok(&Value::Int(3)));
}

#[test]
fn indexed_write_auto_creates_a_missing_key_holding_none() {
    let mut p = Properties::new();
    p.ensure_key("fresh");
    assert_eq!(p.get("fresh"), Some(&Value::Nothing));
    // A present key is left untouched.
    p.set("fresh", Value::Int(4));
    p.ensure_key("fresh");
    assert_eq!(p.get("fresh"), Some(&Value::Int(4)));
}

#[test]
fn remove_deletes_if_present_and_is_a_no_op_otherwise() {
    let mut p = Properties::new();
    p.set("a", Value::Int(1));
    p.remove("a");
    assert!(p.get("a").is_none());
    p.remove("a");
    assert!(p.get("a").is_none());
}

#[test]
fn append_prefers_the_other_map_and_drains_it() {
    let mut ours = Properties::new();
    ours.set("x", Value::Int(1));
    ours.set("y", Value::Int(2));
    let mut other = Properties::new();
    other.set("y", Value::Int(9));
    other.set("z", Value::Int(3));

    ours.append(&mut other);

    // Keys only in `self` are preserved.
    assert_eq!(ours.get("x"), Some(&Value::Int(1)));
    // Keys in both take the value from `other`.
    assert_eq!(ours.get("y"), Some(&Value::Int(9)));
    // Keys only in `other` are added.
    assert_eq!(ours.get("z"), Some(&Value::Int(3)));
    // `other` is drained.
    assert!(other.get("y").is_none());
    assert!(other.get("z").is_none());
}

#[test]
fn join_merges_without_touching_the_operands() {
    let mut a = Properties::new();
    a.set("x", Value::Int(1));
    a.set("y", Value::Int(2));
    let mut b = Properties::new();
    b.set("y", Value::Int(9));

    let merged = a.join(&b);
    assert_eq!(merged.get("x"), Some(&Value::Int(1)));
    assert_eq!(merged.get("y"), Some(&Value::Int(9)));
    assert_eq!(a.get("y"), Some(&Value::Int(2)));
    assert_eq!(b.get("y"), Some(&Value::Int(9)));
}

#[test]
fn extend_inserts_pairs_in_order() {
    let mut p = Properties::new();
    p.set("a", Value::Int(1));
    p.extend(vec![
        ("a".to_string(), Value::Int(10)),
        ("b".to_string(), Value::Int(20)),
    ]);
    assert_eq!(p.get("a"), Some(&Value::Int(10)));
    assert_eq!(p.get("b"), Some(&Value::Int(20)));
}

#[test]
fn rendering_lists_entries_in_insertion_order() {
    let mut p = Properties::new();
    assert_eq!(p.render(), "[]");
    p.set("a", Value::Int(1));
    p.set("b", Value::text("two"));
    assert_eq!(p.render(), "[a=1, b=\"two\", ]");
    // Overwriting keeps the key's position.
    p.set("a", Value::Int(7));
    assert_eq!(p.render(), "[a=7, b=\"two\", ]");
}
