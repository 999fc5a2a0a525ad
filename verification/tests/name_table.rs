use agent_teams::name_table::NameTable;

#[test]
fn a_new_table_holds_nothing() {
    let table: NameTable<u32> = NameTable::new();
    assert!(!table.contains_name("a"));
    assert_eq!(table.get("a"), None);
    assert!(table.names().is_empty());
}

#[test]
fn put_stores_and_replaces() {
    let mut table = NameTable::new();
    table.put("a", 1u32);
    table.put("b", 2u32);
    table.put("a", 3u32);
    assert_eq!(table.get("a"), Some(&3));
    assert_eq!(table.get("b"), Some(&2));
    assert_eq!(table.get("c"), None);
    assert!(table.contains_name("b"));
    let mut names = table.names();
    names.sort();
    assert_eq!(names, vec!["a".to_string(), "b".to_string()]);
}

#[test]
fn take_removes_what_it_returns() {
    let mut table = NameTable::new();
    table.put("a", 1u32);
    table.put("b", 2u32);
    table.put("c", 3u32);
    assert_eq!(table.take("b"), Some(2));
    assert_eq!(table.take("b"), None);
    assert!(!table.contains_name("b"));
    assert_eq!(table.get("a"), Some(&1));
    assert_eq!(table.get("c"), Some(&3));
    assert_eq!(table.names().len(), 2);
}

#[test]
fn names_are_told_apart_exactly() {
    let mut table = NameTable::new();
    table.put("a", 1u32);
    table.put("A", 2u32);
    table.put("a ", 3u32);
    table.put("", 4u32);
    assert_eq!(table.names().len(), 4);
    assert_eq!(table.get(""), Some(&4));
    assert_eq!(table.get("A"), Some(&2));
}
