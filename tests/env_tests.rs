use scop::{Defs, ScopError, Term};

#[test]
fn lib_it_can_insert_and_find_in_global_scope() -> Result<(), ScopError> {
    let mut defs: Defs<Term> = Defs::new();

    defs.insert("global", "1", 1)?;
    defs.insert("global", "2", 2)?;

    let found = defs.substitute("1");
    assert_eq!(found, Some(1));
    let not_found = defs.substitute("3");
    assert_eq!(not_found, None);
    Ok(())
}

#[test]
fn it_can_insert_and_find_with_uuid_scope_name() -> Result<(), ScopError> {
    let mut defs: Defs<Term> = Defs::new();

    defs.insert("global", "1", 1)?;
    defs.insert("global", "2", 2)?;

    let new_scope = defs.create_uuid_scope();
    defs.insert(&new_scope, "3", 3)?;

    let found = defs.substitute("3");
    assert_eq!(found, Some(3));
    Ok(())
}

#[test]
fn it_finds_value_in_innermost_scope() -> Result<(), ScopError> {
    let mut defs: Defs<Term> = Defs::new();

    defs.insert("global", "1", 1)?;
    defs.insert("global", "2", 2)?;

    let new_scope = defs.create_uuid_scope();
    defs.insert(&new_scope, "1", 10)?;

    let found = defs.substitute("1");
    assert_eq!(found, Some(10));
    Ok(())
}

#[test]
fn fresh_environment_resolves_nothing() {
    let defs: Defs<Term> = Defs::new();
    assert_eq!(defs.substitute("a"), None);
    assert_eq!(defs.substitute("global"), None);
    assert_eq!(defs.substitute(""), None);
}

#[test]
fn global_binding_round_trips() {
    let mut defs: Defs<String> = Defs::new();
    assert!(defs.insert("global", "a", "value".to_string()).is_ok());
    assert_eq!(defs.substitute("a"), Some("value".to_string()));
}

#[test]
fn unbound_name_is_absent() {
    let mut defs: Defs<Term> = Defs::new();
    defs.insert("global", "a", 1).unwrap();
    defs.insert("global", "b", 2).unwrap();
    assert_eq!(defs.substitute("c"), None);
}

#[test]
fn inner_binding_shadows_outer_one_inserted_later() {
    let mut defs: Defs<Term> = Defs::new();
    let s = defs.create_uuid_scope();
    defs.insert(&s, "a", 10).unwrap();
    defs.insert("global", "a", 1).unwrap();
    assert_eq!(defs.substitute("a"), Some(10));
}

#[test]
fn binding_into_unstacked_scope_is_invisible() {
    let mut defs: Defs<Term> = Defs::new();
    defs.insert("global", "a", 1).unwrap();
    defs.insert("elsewhere", "a", 5).unwrap();
    defs.insert("elsewhere", "b", 6).unwrap();
    assert_eq!(defs.substitute("a"), Some(1));
    assert_eq!(defs.substitute("b"), None);
}

#[test]
fn latest_child_scope_wins() {
    let mut defs: Defs<Term> = Defs::new();
    let s1 = defs.create_uuid_scope();
    let s2 = defs.create_uuid_scope();
    defs.insert(&s2, "x", 2).unwrap();
    defs.insert(&s1, "x", 1).unwrap();
    assert_eq!(defs.substitute("x"), Some(2));
}

#[test]
fn rebinding_keeps_latest_value() {
    let mut defs: Defs<Term> = Defs::new();
    defs.insert("global", "a", 1).unwrap();
    defs.insert("global", "a", 2).unwrap();
    assert_eq!(defs.substitute("a"), Some(2));
}

#[test]
fn generated_identifiers_are_distinct() {
    let mut defs: Defs<Term> = Defs::new();
    let mut seen = std::collections::HashSet::new();
    for _ in 0..10_000 {
        let id = defs.create_uuid_scope();
        assert_eq!(id.len(), 36);
        assert_ne!(id, "global");
        assert!(seen.insert(id));
    }
}

#[test]
fn end_to_end_scenario() {
    let mut defs: Defs<Term> = Defs::new();
    defs.insert("global", "1", 1).unwrap();
    defs.insert("global", "2", 2).unwrap();
    let s = defs.create_uuid_scope();
    defs.insert(&s, "3", 3).unwrap();
    assert_eq!(defs.substitute("1"), Some(1));
    assert_eq!(defs.substitute("2"), Some(2));
    assert_eq!(defs.substitute("3"), Some(3));
    assert_eq!(defs.substitute("4"), None);
}

#[test]
fn named_scope_resolves_its_bindings() {
    let mut defs: Defs<Term> = Defs::new();
    defs.insert("global", "a", 1).unwrap();
    defs.create_named_scope("inner");
    defs.insert("inner", "a", 7).unwrap();
    assert_eq!(defs.substitute("a"), Some(7));
}

#[test]
fn named_scope_replaces_earlier_table() {
    let mut defs: Defs<Term> = Defs::new();
    defs.insert("inner", "a", 5).unwrap();
    defs.insert("inner", "b", 6).unwrap();
    defs.create_named_scope("inner");
    defs.insert("inner", "b", 8).unwrap();
    assert_eq!(defs.substitute("a"), None);
    assert_eq!(defs.substitute("b"), Some(8));
}
