use yara::env::Environment;

/// An inner-scope binding shadows an outer one, and popping the inner scope
/// restores the outer binding.
#[test]
fn inner_scope_shadows_then_restores() {
    let mut env: Environment<i32> = Environment::new();
    env.declare("x", 1);
    env.push_scope();
    env.declare("x", 2);
    assert_eq!(env.lookup("x"), Some(&2));
    env.pop_scope();
    assert_eq!(env.lookup("x"), Some(&1));
}

/// `set_or_declare` mutates the nearest existing binding (even in an outer
/// scope) rather than creating a shadow in the current scope.
#[test]
fn set_or_declare_mutates_outer_binding_in_place() {
    let mut env: Environment<i32> = Environment::new();
    env.declare("x", 1);
    env.push_scope();
    env.set_or_declare("x", 5);
    env.pop_scope();
    assert_eq!(env.lookup("x"), Some(&5));
}

/// `set_or_declare` on an unknown name introduces it in the innermost scope.
#[test]
fn set_or_declare_introduces_new_binding() {
    let mut env: Environment<i32> = Environment::new();
    env.set_or_declare("y", 9);
    assert_eq!(env.lookup("y"), Some(&9));
    assert!(env.current().contains_key("y"));
}

/// An unbound name resolves to `None`.
#[test]
fn unbound_name_is_none() {
    let env: Environment<i32> = Environment::new();
    assert_eq!(env.lookup("nope"), None);
}

#[test]
fn push_then_pop_leaves_bindings_as_they_were() {
    let mut env: Environment<i32> = Environment::new();
    env.declare("a", 1);
    env.push_scope();
    env.pop_scope();
    assert_eq!(env.lookup("a"), Some(&1));
    assert_eq!(env.current().len(), 1);
}

#[test]
fn declared_name_resolves_to_its_value() {
    let mut env: Environment<&str> = Environment::new();
    env.push_scope();
    env.declare("k", "inner");
    assert_eq!(env.lookup("k"), Some(&"inner"));
    env.set_or_declare("k", "changed");
    assert_eq!(env.lookup("k"), Some(&"changed"));
}

#[test]
fn scopes_are_listed_outermost_first() {
    let mut env: Environment<i64> = Environment::new();
    env.declare("x", 1);
    env.push_scope();
    env.declare("y", 2);
    assert_eq!(env.depth(), 2);
    assert_eq!(env.scope(0).get("x"), Some(&1));
    assert_eq!(env.scope(0).get("y"), None);
    assert_eq!(env.scope(1).get("y"), Some(&2));
    env.pop_scope();
    assert_eq!(env.depth(), 1);
}
