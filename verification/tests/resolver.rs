use ptx::ast::{ScalarType, StateSpace, Type};
use ptx::error::TranslateError;
use ptx::resolver::ScopedResolver;

fn u64_reg() -> Option<(Type, StateSpace)> {
    Some((Type::Scalar(ScalarType::U64), StateSpace::Reg))
}

#[test]
fn add_returns_distinct_consecutive_ids() {
    let mut r = ScopedResolver::new();
    r.start_scope();
    let a = r.add(b"a".to_vec(), u64_reg()).unwrap();
    let b = r.add(b"b".to_vec(), u64_reg()).unwrap();
    let c = r.add(b"c".to_vec(), None).unwrap();
    assert_eq!(a, 1);
    assert_eq!(b, 2);
    assert_eq!(c, 3);
    // A new scope keeps drawing from the same table: no id is ever reused.
    r.start_scope();
    let d = r.add(b"a".to_vec(), None).unwrap();
    assert_eq!(d, 4);
    assert!(a != b && b != c && c != d && a != c && a != d && b != d);
}

#[test]
fn shadowing_resolves_to_innermost() {
    let mut r = ScopedResolver::new();
    r.start_scope();
    let outer = r.add(b"x".to_vec(), None).unwrap();
    r.start_scope();
    let inner = r.add(b"x".to_vec(), None).unwrap();
    assert_ne!(outer, inner);
    assert_eq!(r.get(&b"x".to_vec()).unwrap(), inner);
}

#[test]
fn end_scope_falls_back_to_enclosing_binding() {
    let mut r = ScopedResolver::new();
    r.start_scope();
    let outer = r.add(b"x".to_vec(), None).unwrap();
    r.start_scope();
    r.add(b"x".to_vec(), None).unwrap();
    r.add(b"y".to_vec(), None).unwrap();
    r.end_scope();
    // The shadow is gone; the enclosing binding is visible again.
    assert_eq!(r.get(&b"x".to_vec()).unwrap(), outer);
    // A name introduced only in the closed scope no longer resolves.
    assert_eq!(r.get(&b"y".to_vec()), Err(TranslateError::UnknownSymbol));
}

#[test]
fn duplicate_name_in_same_scope_is_rejected() {
    let mut r = ScopedResolver::new();
    r.start_scope();
    r.add(b"x".to_vec(), None).unwrap();
    assert_eq!(
        r.add(b"x".to_vec(), u64_reg()),
        Err(TranslateError::SymbolRedefinition)
    );
}

#[test]
fn add_or_get_collapses_declaration_and_definition() {
    let mut r = ScopedResolver::new();
    r.start_scope();
    let first = r.add_or_get_in_current_scope_untyped(b"f".to_vec()).unwrap();
    let second = r.add_or_get_in_current_scope_untyped(b"f".to_vec()).unwrap();
    assert_eq!(first, second);
}

#[test]
fn get_in_current_scope_ignores_outer_scopes() {
    let mut r = ScopedResolver::new();
    r.start_scope();
    r.add(b"x".to_vec(), None).unwrap();
    r.start_scope();
    assert_eq!(
        r.get_in_current_scope(&b"x".to_vec()),
        Err(TranslateError::UnknownSymbol)
    );
    assert!(r.get(&b"x".to_vec()).is_ok());
}

#[test]
fn table_records_name_and_descriptor() {
    let mut r = ScopedResolver::new();
    r.start_scope();
    let id = r.add(b"v".to_vec(), u64_reg()).unwrap();
    assert_eq!(r.table.ident_name(id), Some(&b"v".to_vec()));
    assert_eq!(r.table.ident_name(0), None);
    assert_eq!(r.table.ident_name(id + 1), None);
}
