use yara::builtins::{builtins, lookup};

/// Names must be unique, or `lookup` would shadow later entries.
#[test]
fn builtins_builtin_names_are_unique() {
    let mut seen = std::collections::HashSet::new();
    for b in builtins() {
        assert!(seen.insert(b.name), "duplicate builtin name: {}", b.name);
    }
}

#[test]
fn builtins_lookup_finds_known_and_misses_unknown() {
    assert_eq!(lookup("push").map(|b| b.arity), Some(2));
    assert_eq!(lookup("set_deref").map(|b| b.arity), Some(2));
    assert!(lookup("print").is_none());
    assert!(lookup("nope").is_none());
}

#[test]
fn lookup_reports_each_table_arity() {
    assert_eq!(lookup("len").map(|b| b.arity), Some(1));
    assert_eq!(lookup("set").map(|b| b.arity), Some(3));
    assert_eq!(lookup("collect").map(|b| b.arity), Some(0));
    assert_eq!(lookup("collect").map(|b| b.name), Some("collect"));
    assert_eq!(builtins().len(), 10);
}
