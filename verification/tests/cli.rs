use yara::cli::{parse_keywords_flag, parse_vocabulary_flag};

fn args(list: &[&str]) -> Vec<String> {
    list.iter().map(|s| s.to_string()).collect()
}

#[test]
fn keywords_flag_takes_the_next_argument() {
    assert_eq!(parse_keywords_flag(&args(&["--keywords", "pt.keywords"])), Some("pt.keywords".to_string()));
    assert_eq!(parse_keywords_flag(&args(&["x", "--keywords"])), None);
    assert_eq!(parse_keywords_flag(&args(&["--vocabulary", "pt.vocab"])), None);
    assert_eq!(parse_keywords_flag(&args(&[])), None);
}

#[test]
fn vocabulary_flag_accepts_its_alias_and_the_first_wins() {
    assert_eq!(parse_vocabulary_flag(&args(&["--vocabulary", "a.vocab"])), Some("a.vocab".to_string()));
    assert_eq!(parse_vocabulary_flag(&args(&["--keywords", "b.vocab"])), Some("b.vocab".to_string()));
    assert_eq!(
        parse_vocabulary_flag(&args(&["--keywords", "first", "--vocabulary", "second"])),
        Some("first".to_string())
    );
    assert_eq!(parse_vocabulary_flag(&args(&["--vocabulary"])), None);
}
