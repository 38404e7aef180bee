use latc::ast::Type;
use latc::scoped_map::ScopedMap;

#[test]
fn lookup_walks_scopes_innermost_first() {
    let mut m: ScopedMap<Type> = ScopedMap::new();
    m.push_scope();
    assert!(m.insert_into_top_scope("x".to_string(), Type::Int).is_none());
    m.push_scope();
    assert!(m.insert_into_top_scope("x".to_string(), Type::Bool).is_none());
    assert!(matches!(m.get(&"x".to_string()), Some(Type::Bool)));
    let popped = m.pop_scope();
    assert_eq!(popped.map(|s| s.len()), Some(1));
    assert!(matches!(m.get(&"x".to_string()), Some(Type::Int)));
}

#[test]
fn insert_into_same_scope_reports_previous_binding() {
    let mut m: ScopedMap<Type> = ScopedMap::new();
    m.push_scope();
    assert!(m.insert_into_top_scope("x".to_string(), Type::Int).is_none());
    let prev = m.insert_into_top_scope("x".to_string(), Type::Str);
    assert!(matches!(prev, Some(Type::Int)));
    assert!(matches!(m.get(&"x".to_string()), Some(Type::Str)));
}

#[test]
fn replace_topmost_rebinds_in_owning_scope() {
    let mut m: ScopedMap<Type> = ScopedMap::new();
    m.push_scope();
    m.insert_into_top_scope("x".to_string(), Type::Int);
    m.push_scope();
    m.insert_into_top_scope("y".to_string(), Type::Bool);
    let old = m.replace_topmost(&"x".to_string(), Type::Str);
    assert!(matches!(old, Type::Int));
    m.pop_scope();
    // the rebinding happened in the outer scope that owns `x`
    assert!(matches!(m.get(&"x".to_string()), Some(Type::Str)));
}

#[test]
fn keys_enumerates_live_names_once() {
    let mut m: ScopedMap<Type> = ScopedMap::new();
    m.push_scope();
    m.insert_into_top_scope("a".to_string(), Type::Int);
    m.insert_into_top_scope("b".to_string(), Type::Bool);
    m.push_scope();
    m.insert_into_top_scope("a".to_string(), Type::Str);
    m.insert_into_top_scope("c".to_string(), Type::Int);
    let mut keys = m.keys();
    keys.sort();
    assert_eq!(keys, vec!["a".to_string(), "b".to_string(), "c".to_string()]);
    assert_eq!(m.len(), 4);
    m.pop_scope();
    let mut keys = m.keys();
    keys.sort();
    assert_eq!(keys, vec!["a".to_string(), "b".to_string()]);
}

#[test]
fn duplicate_preserves_bindings() {
    let mut m: ScopedMap<u64> = ScopedMap::new();
    m.push_scope();
    m.insert_into_top_scope("x".to_string(), 1);
    m.push_scope();
    m.insert_into_top_scope("y".to_string(), 2);
    let d = m.duplicate();
    assert!(matches!(d.get(&"x".to_string()), Some(1)));
    assert!(matches!(d.get(&"y".to_string()), Some(2)));
}
