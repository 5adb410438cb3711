use yara::types::normalize_type_alias;

#[test]
fn aliases_map_to_canonical_and_others_pass_through() {
    assert_eq!(normalize_type_alias("Int"), "Integer");
    assert_eq!(normalize_type_alias("Bool"), "Boolean");
    assert_eq!(normalize_type_alias("Str"), "String");
    assert_eq!(normalize_type_alias("Float"), "Float");
    assert_eq!(normalize_type_alias("MyClass"), "MyClass");
}

#[test]
fn normalizing_twice_changes_nothing() {
    for name in ["Int", "Bool", "Str", "Integer", "Float", "MyClass", ""] {
        let once = normalize_type_alias(name);
        assert_eq!(normalize_type_alias(once), once);
    }
}
