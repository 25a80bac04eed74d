use stellaris_hunter_scan::clausewitz::{
    count_entries, direct_entry, parse_clausewitz, query_atom, query_atoms, query_bool, query_count,
    query_path,
};

#[test]
fn test_query_path_simple() {
    let ast = parse_clausewitz("a = { b = { c = hello } }").unwrap();
    assert_eq!(
        query_atom(&ast, &["a", "b", "c"]),
        Some("hello".to_string())
    );
}

#[test]
fn test_query_path_missing() {
    let ast = parse_clausewitz("a = { b = hello }").unwrap();
    assert!(query_path(&ast, &["a", "x"]).is_none());
}

#[test]
fn test_count_entries() {
    let ast = parse_clausewitz("items = { a b c }").unwrap();
    let items = direct_entry(&ast, "items").unwrap();
    assert_eq!(count_entries(items), 3);
}

#[test]
fn test_query_count() {
    let ast = parse_clausewitz("planets = { 0 = {} 1 = {} 2 = {} }").unwrap();
    assert_eq!(query_count(&ast, &["planets"]), Some(3));
}

#[test]
fn test_query_bool() {
    let ast = parse_clausewitz("flag = yes").unwrap();
    assert_eq!(query_bool(&ast, &["flag"]), Some(true));
}

#[test]
fn test_query_atoms() {
    let ast = parse_clausewitz("list = { a b c }").unwrap();
    assert_eq!(query_atoms(&ast, &["list"]), vec!["a", "b", "c"]);
}

#[test]
fn test_count_entries_on_atom() {
    let ast = parse_clausewitz("value = hello").unwrap();
    let v = direct_entry(&ast, "value").unwrap();
    assert_eq!(count_entries(v), 0);
}
