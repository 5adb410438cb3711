use yara::messages::{lookup_english, messages, substitute};

#[test]
fn substitutes_positional_placeholders() {
    assert_eq!(
        substitute("expected {0}, found {1}", &["`)`", "`if`"]),
        "expected `)`, found `if`"
    );
}

#[test]
fn leaves_template_without_placeholders_untouched() {
    assert_eq!(substitute("division by zero", &[]), "division by zero");
}

#[test]
fn message_keys_are_unique() {
    let mut seen = std::collections::HashSet::new();
    for (key, _) in messages() {
        assert!(seen.insert(key), "duplicate message key: {key}");
    }
}

#[test]
fn every_placeholder_occurrence_is_replaced() {
    assert_eq!(substitute("{0} and {0}", &["x"]), "x and x");
    assert_eq!(substitute("{1}{0}", &["a", "b"]), "ba");
}

#[test]
fn english_lookup_finds_catalog_templates() {
    assert_eq!(lookup_english("type/undefined-variable"), Some("undefined variable `{0}`"));
    assert_eq!(lookup_english("no/such-key"), None);
}

/// A placeholder past the arguments stays as written.
#[test]
fn placeholder_past_the_arguments_stays() {
    assert_eq!(substitute("{0} {1}", &["a"]), "a {1}");
    assert_eq!(substitute("{2}", &["a", "b"]), "{2}");
}
