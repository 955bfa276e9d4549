use scop::registry::{Defs, Scopes};

type NormalForm = i32;

#[test]
fn main_it_can_insert_and_find_in_global_scope() {
    let mut defs: Defs<NormalForm> = Defs::new();
    let scopes = Scopes::new();

    defs.insert("global", "1", 1).unwrap();
    defs.insert("global", "2", 2).unwrap();

    let found = defs.find("1", &scopes);
    assert_eq!(found, Some(1));
    let not_found = defs.find("3".into(), &scopes);
    assert_eq!(not_found, None);
}

#[test]
fn it_can_insert_and_find_with_generated_scope_name() {
    let mut defs: Defs<NormalForm> = Defs::new();
    let mut scopes = Scopes::new();

    defs.insert("global", "1", 1).unwrap();
    defs.insert("global", "2", 2).unwrap();

    let new_scope = defs.create_scope(&mut scopes);
    defs.insert(&new_scope, "3", 3).unwrap();

    let found = defs.find("3", &scopes);
    assert_eq!(found, Some(3));
}

#[test]
fn it_finds_value_in_inner_scope() {
    let mut defs: Defs<NormalForm> = Defs::new();
    let mut scopes = Scopes::new();

    defs.insert("global", "1", 1).unwrap();
    defs.insert("global", "2", 2).unwrap();

    let new_scope = defs.create_scope(&mut scopes);
    defs.insert(&new_scope, "1", 10).unwrap();

    let found = defs.find("1", &scopes);
    assert_eq!(found, Some(10));
}

#[test]
fn shadowing_leaves_global_table_intact() {
    let mut defs: Defs<NormalForm> = Defs::new();
    let mut scopes = Scopes::new();
    defs.insert("global", "a", 1).unwrap();
    let s = defs.create_scope(&mut scopes);
    defs.insert(&s, "a", 10).unwrap();
    assert_eq!(defs.find("a", &scopes), Some(10));
    assert_eq!(defs.find("a", &Scopes::new()), Some(1));
}

#[test]
fn pushed_scope_is_searched_first() {
    let mut defs: Defs<NormalForm> = Defs::new();
    let mut scopes = Scopes::new();
    defs.insert("global", "a", 1).unwrap();
    defs.insert("side", "a", 4).unwrap();
    assert_eq!(defs.find("a", &scopes), Some(1));
    scopes.push("side".to_string());
    assert_eq!(defs.find("a", &scopes), Some(4));
}

#[test]
fn created_scope_identifier_is_a_hyphenated_uuid() {
    let mut defs: Defs<NormalForm> = Defs::new();
    let mut scopes = Scopes::new();
    let a = defs.create_scope(&mut scopes);
    let b = defs.create_scope(&mut scopes);
    assert_eq!(a.len(), 36);
    assert_eq!(a.matches('-').count(), 4);
    assert_ne!(a, b);
}

#[test]
fn covers_all_detects_unregistered_scope() {
    let mut defs: Defs<NormalForm> = Defs::new();
    let mut scopes = Scopes::new();
    assert!(defs.covers_all(&scopes));
    let s = defs.create_scope(&mut scopes);
    assert!(defs.covers_all(&scopes));
    scopes.push("unknown".to_string());
    assert!(!defs.covers_all(&scopes));
    defs.insert("unknown", "z", 0).unwrap();
    assert!(defs.covers_all(&scopes));
    assert_eq!(defs.find("z", &scopes), Some(0));
    assert_eq!(defs.find(&s, &scopes), None);
}
