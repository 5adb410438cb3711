use std::rc::Rc;
use yara::diagnostics::Diagnostic;
use yara::keywords::{default_keywords, KeywordToken};
use yara::lexer::{Lexer, TokenKind};
use yara::translations::parse_vocabulary;

fn kinds(src: &str) -> Vec<TokenKind> {
    Lexer::new(src)
        .tokenize()
        .unwrap()
        .into_iter()
        .map(|t| t.kind)
        .collect()
}

/// A localized vocabulary's `[messages]` override reaches lexer errors
/// once `Lexer::with_vocabulary` is used.
#[test]
fn localized_vocabulary_translates_lexer_errors() {
    let vocab = Rc::new(
        parse_vocabulary("[messages]\nlex/unterminated-string = string nao terminada\n").unwrap(),
    );
    let err = Lexer::with_vocabulary("\"abc", vocab).tokenize().unwrap_err();
    assert_eq!(err.message, "string nao terminada");
}

/// The keyword table is internally consistent: no spelling and no token
/// appears twice, and `default_keywords()` reflects every keyword.
#[test]
fn keyword_table_is_consistent() {
    let defaults = default_keywords();
    let all = KeywordToken::all();
    assert_eq!(defaults.len(), all.len(), "duplicate spelling in the keyword table");
    let mut tokens = std::collections::HashSet::new();
    for token in all {
        assert!(tokens.insert(token), "duplicate token in the keyword table: {token:?}");
        assert_eq!(defaults.get(token.canonical_name()), Some(&token));
    }
}

/// `canonical_name` round-trips every token back to its spelling.
#[test]
fn canonical_name_round_trips_every_keyword() {
    for token in KeywordToken::all() {
        let name = token.canonical_name();
        assert_eq!(default_keywords().get(name), Some(&token));
    }
}

#[test]
fn tokenizes_function_def() {
    let src = "def add(a: Int, b: Int): Int\n  a + b\nend";
    let kinds = kinds(src);
    assert_eq!(
        kinds,
        vec![
            TokenKind::Def,
            TokenKind::Ident("add".into()),
            TokenKind::LParen,
            TokenKind::Ident("a".into()),
            TokenKind::Colon,
            TokenKind::Ident("Int".into()),
            TokenKind::Comma,
            TokenKind::Ident("b".into()),
            TokenKind::Colon,
            TokenKind::Ident("Int".into()),
            TokenKind::RParen,
            TokenKind::Colon,
            TokenKind::Ident("Int".into()),
            TokenKind::Ident("a".into()),
            TokenKind::Plus,
            TokenKind::Ident("b".into()),
            TokenKind::End,
            TokenKind::Eof,
        ]
    );
}

#[test]
fn tracks_line_and_column() {
    let tokens = Lexer::new("x\ny").tokenize().unwrap();
    assert_eq!(tokens[0].line, 1);
    assert_eq!(tokens[0].column, 1);
    assert_eq!(tokens[1].line, 2);
    assert_eq!(tokens[1].column, 1);
}

#[test]
fn reads_literals() {
    assert_eq!(kinds("5")[0], TokenKind::Int(5));
    assert_eq!(kinds("5.5")[0], TokenKind::Float("5.5".into()));
    assert_eq!(kinds("true")[0], TokenKind::Bool(true));
    assert_eq!(kinds("\"hi\"")[0], TokenKind::Str("hi".into()));
}

#[test]
fn skips_comments() {
    let kinds = kinds("x # a comment\ny");
    assert_eq!(
        kinds,
        vec![
            TokenKind::Ident("x".into()),
            TokenKind::Ident("y".into()),
            TokenKind::Eof
        ]
    );
}

#[test]
fn range_operator() {
    assert_eq!(
        kinds("0..10"),
        vec![
            TokenKind::Int(0),
            TokenKind::DotDot,
            TokenKind::Int(10),
            TokenKind::Eof
        ]
    );
}

#[test]
fn unterminated_string_reports_position() {
    let err = Lexer::new("\"abc").tokenize().unwrap_err();
    assert_eq!(err.line, 1);
    assert_eq!(err.column, 1);
}

#[test]
fn brackets() {
    assert_eq!(
        kinds("[1, 2]"),
        vec![
            TokenKind::LBracket,
            TokenKind::Int(1),
            TokenKind::Comma,
            TokenKind::Int(2),
            TokenKind::RBracket,
            TokenKind::Eof,
        ]
    );
}

#[test]
fn class_keyword_and_dot() {
    assert_eq!(
        kinds("class Foo\nend\nx.field"),
        vec![
            TokenKind::Class,
            TokenKind::Ident("Foo".into()),
            TokenKind::End,
            TokenKind::Ident("x".into()),
            TokenKind::Dot,
            TokenKind::Ident("field".into()),
            TokenKind::Eof,
        ]
    );
}

#[test]
fn with_keywords_recognizes_translated_spellings() {
    let mut keywords = default_keywords();
    keywords.remove("if");
    keywords.insert("se".to_string(), KeywordToken::If);
    let tokens = Lexer::with_keywords("se x", keywords).tokenize().unwrap();
    assert_eq!(
        tokens.into_iter().map(|t| t.kind).collect::<Vec<_>>(),
        vec![TokenKind::If, TokenKind::Ident("x".into()), TokenKind::Eof]
    );
}

#[test]
fn with_keywords_untranslated_word_is_plain_ident() {
    assert_eq!(kinds("if")[0], TokenKind::If);
}

#[test]
fn empty_source_is_just_eof() {
    let tokens = Lexer::new("").tokenize().unwrap();
    assert_eq!(tokens.len(), 1);
    assert_eq!(tokens[0].kind, TokenKind::Eof);
    assert_eq!((tokens[0].line, tokens[0].column), (1, 1));
    let tokens = Lexer::new("  # only a comment\n").tokenize().unwrap();
    assert_eq!(tokens.len(), 1);
    assert_eq!((tokens[0].line, tokens[0].column), (2, 1));
}

#[test]
fn two_character_operators_take_precedence() {
    assert_eq!(
        kinds("== != <= >= := .. = < > : . - * /"),
        vec![
            TokenKind::EqEq,
            TokenKind::NotEq,
            TokenKind::LtEq,
            TokenKind::GtEq,
            TokenKind::ColonEq,
            TokenKind::DotDot,
            TokenKind::Eq,
            TokenKind::Lt,
            TokenKind::Gt,
            TokenKind::Colon,
            TokenKind::Dot,
            TokenKind::Minus,
            TokenKind::Star,
            TokenKind::Slash,
            TokenKind::Eof,
        ]
    );
}

#[test]
fn string_escapes_are_translated() {
    assert_eq!(kinds("\"a\\nb\\t\\\"c\\\\\"")[0], TokenKind::Str("a\nb\t\"c\\".into()));
}

#[test]
fn invalid_escape_is_reported_at_the_opening_quote() {
    let err = Lexer::new("x = \"ab\\q\"").tokenize().unwrap_err();
    assert_eq!((err.line, err.column), (1, 5));
    assert_eq!(err.message, "invalid escape sequence `\\q`");
}

#[test]
fn lone_bang_and_stray_characters_are_errors() {
    let err = Lexer::new("a !b").tokenize().unwrap_err();
    assert_eq!(err.message, "unexpected character `!`");
    assert_eq!((err.line, err.column), (1, 3));
    let err = Lexer::new("\n  @").tokenize().unwrap_err();
    assert_eq!(err.message, "unexpected character `@`");
    assert_eq!((err.line, err.column), (2, 3));
    assert_eq!(err.display(), "2:3: unexpected character `@`");
    assert_eq!(err.kind(), "lex error");
}

#[test]
fn integer_literal_must_fit_in_i64() {
    assert_eq!(kinds("9223372036854775807")[0], TokenKind::Int(i64::MAX));
    let err = Lexer::new("9223372036854775808").tokenize().unwrap_err();
    assert_eq!(err.message, "invalid integer literal `9223372036854775808`");
    assert_eq!(kinds("007")[0], TokenKind::Int(7));
}

#[test]
fn newline_ends_a_string() {
    let err = Lexer::new("\"ab\ncd\"").tokenize().unwrap_err();
    assert_eq!(err.message, "unterminated string literal");
}

#[test]
fn identifiers_may_hold_digits_underscores_and_letters_beyond_ascii() {
    assert_eq!(
        kinds("_a1 état"),
        vec![TokenKind::Ident("_a1".into()), TokenKind::Ident("état".into()), TokenKind::Eof]
    );
}
