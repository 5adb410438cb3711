use yara::builtins::builtins;
use yara::keywords::KeywordToken;
use yara::messages::messages;
use yara::methods::methods;
use yara::translations::{parse_keyword_file, parse_vocabulary, Vocabulary};
use yara::typechecker::{primitive_type_names, Type};

#[test]
fn translates_a_single_keyword() {
    let keywords = parse_keyword_file("if = se\n").unwrap();
    assert_eq!(keywords.get("se"), Some(&KeywordToken::If));
    assert_eq!(keywords.get("if"), None);
    // Untranslated keywords keep their English spelling.
    assert_eq!(keywords.get("end"), Some(&KeywordToken::End));
}

#[test]
fn ignores_comments_and_blank_lines() {
    let keywords = parse_keyword_file("# a comment\n\nif = se # trailing comment\n").unwrap();
    assert_eq!(keywords.get("se"), Some(&KeywordToken::If));
}

#[test]
fn unknown_canonical_name_is_an_error() {
    let err = parse_keyword_file("iff = se\n").unwrap_err();
    assert!(err.message.contains("unknown keyword"));
    assert_eq!(err.line, 1);
}

#[test]
fn duplicate_localized_spelling_is_an_error() {
    let err = parse_keyword_file("if = pal\nwhile = pal\n").unwrap_err();
    assert!(err.message.contains("already used"));
    assert_eq!(err.line, 2);
}

#[test]
fn malformed_line_is_an_error() {
    let err = parse_keyword_file("this is not valid\n").unwrap_err();
    assert!(err.message.contains("expected"));
}

#[test]
fn sectioned_file_parses_types_builtins_and_methods() {
    let text = "[keywords]\nif = se\n[types]\nInteger = Inteiro\n[builtins]\nprint = escreva\n[methods]\nsize = tamanho\n";
    let vocab = parse_vocabulary(text).unwrap();
    assert_eq!(vocab.keywords.get("se"), Some(&KeywordToken::If));
    assert_eq!(vocab.canonical_type("Inteiro"), "Integer");
    assert_eq!(vocab.canonical_builtin("escreva"), "print");
    assert_eq!(vocab.canonical_method("tamanho"), "size");
}

#[test]
fn untagged_lines_default_to_keywords_section() {
    // No `[keywords]` header at all -- matches every pre-sectioning file.
    let vocab = parse_vocabulary("if = se\n").unwrap();
    assert_eq!(vocab.keywords.get("se"), Some(&KeywordToken::If));
}

#[test]
fn unknown_type_name_is_an_error() {
    let err = parse_vocabulary("[types]\nBogus = Fake\n").unwrap_err();
    assert!(err.message.contains("unknown name"));
}

#[test]
fn unknown_builtin_name_is_an_error() {
    let err = parse_vocabulary("[builtins]\nnope = naoexiste\n").unwrap_err();
    assert!(err.message.contains("unknown name"));
}

#[test]
fn unknown_method_name_is_an_error() {
    let err = parse_vocabulary("[methods]\nnope = naoexiste\n").unwrap_err();
    assert!(err.message.contains("unknown name"));
}

#[test]
fn duplicate_localized_type_spelling_is_an_error() {
    let err = parse_vocabulary("[types]\nInteger = X\nFloat = X\n").unwrap_err();
    assert!(err.message.contains("already used"));
}

#[test]
fn unknown_section_header_is_an_error() {
    let err = parse_vocabulary("[bogus]\nif = se\n").unwrap_err();
    assert!(err.message.contains("unknown section"));
}

#[test]
fn unknown_message_key_is_an_error() {
    let err = parse_vocabulary("[messages]\nnope/nope = oops\n").unwrap_err();
    assert!(err.message.contains("unknown message key"));
}

#[test]
fn message_override_takes_precedence_over_english_default() {
    let vocab =
        parse_vocabulary("[messages]\nruntime/division-by-zero = divisao por zero\n").unwrap();
    assert_eq!(
        vocab.msg("runtime/division-by-zero", &[]),
        "divisao por zero"
    );
    // An untranslated key still falls back to English.
    assert_eq!(
        vocab.msg("type/undefined-variable", &["x"]),
        "undefined variable `x`"
    );
}

#[test]
fn english_vocabulary_round_trips_every_registry_name() {
    let vocab = Vocabulary::english();
    for name in Vocabulary::canonical_type_names() {
        assert_eq!(vocab.canonical_type(name), name, "type {name}");
    }
    for name in Vocabulary::canonical_builtin_names() {
        assert_eq!(vocab.canonical_builtin(name), name, "builtin {name}");
    }
    for name in Vocabulary::canonical_method_names() {
        assert_eq!(vocab.canonical_method(name), name, "method {name}");
    }
}

/// Every builtin, method and primitive-type name resolves in the English vocabulary.
#[test]
fn registry_coverage() {
    let vocab = Vocabulary::english();
    for b in builtins() {
        assert_eq!(vocab.canonical_builtin(b.name), b.name);
    }
    for m in methods() {
        assert_eq!(vocab.canonical_method(m.name), m.name);
    }
    for t in primitive_type_names() {
        assert_eq!(vocab.canonical_type(t), t);
    }
}

#[test]
fn every_message_key_has_an_english_template() {
    for (key, template) in messages() {
        assert!(!template.is_empty(), "empty English template for {key}");
    }
}

#[test]
fn later_spelling_of_the_same_keyword_replaces_the_earlier_one() {
    let keywords = parse_keyword_file("if = se\nif = caso\n").unwrap();
    assert_eq!(keywords.get("caso"), Some(&KeywordToken::If));
    assert_eq!(keywords.get("se"), None);
    assert_eq!(keywords.get("if"), None);
}

#[test]
fn translation_error_renders_line_then_message() {
    let err = parse_keyword_file("\n\niff = se\n").unwrap_err();
    assert_eq!(err.line, 3);
    assert_eq!(err.display(), format!("3: {}", err.message));
}

#[test]
fn localized_names_echo_in_type_names_and_booleans() {
    let vocab = parse_vocabulary(
        "[keywords]\ntrue = verdadeiro\n[types]\nInteger = Inteiro\n[methods]\nsize = tamanho\n",
    )
    .unwrap();
    assert_eq!(vocab.bool_word(true), "verdadeiro");
    assert_eq!(vocab.bool_word(false), "false");
    assert_eq!(vocab.localized_type_name(&Type::Array(Box::new(Type::Integer))), "Array<Inteiro>");
    assert_eq!(vocab.localized_method_names(&["size", "push"]), vec!["tamanho".to_string(), "push".to_string()]);
    assert_eq!(vocab.canonical_type("Desconhecido"), "Desconhecido");
}
