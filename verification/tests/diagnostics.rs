use yara::diagnostics::{
    render, render_snippet, render_with_map, render_with_map_and_vocab, Diagnostic, Frame, SourceMap, Span,
};
use yara::interpreter::{RuntimeError, StackFrame};
use yara::parser::ParseError;
use yara::resolver::ResolveError;
use yara::translations::{parse_vocabulary, Vocabulary};

/// The caret lines up under the exact 1-indexed column.
#[test]
fn mod_snippet_points_caret_at_column() {
    let source = "x = 5\ny = x @ 2\n";
    let snippet = render_snippet(source, 2, 7);
    assert_eq!(snippet, "  |\n2 | y = x @ 2\n  |       ^\n");
}

/// A line past the end of the source renders as an empty string.
#[test]
fn mod_snippet_out_of_range_line_is_empty() {
    assert_eq!(render_snippet("only one line\n", 5, 1), "");
}

/// The gutter widens with the line number's digit count.
#[test]
fn mod_snippet_gutter_width_matches_line_number_digits() {
    let source = "\n".repeat(9) + "tenth line";
    let snippet = render_snippet(&source, 10, 3);
    assert!(snippet.starts_with("   |\n10 | tenth line\n   |   ^\n"));
}

/// A stage error with no call stack renders header + snippet and nothing else.
#[test]
fn mod_render_uses_trait_kind_message_and_span() {
    struct Dummy;
    impl Diagnostic for Dummy {
        fn kind(&self) -> &str {
            "type error"
        }
        fn message(&self) -> &str {
            "boom"
        }
        fn span(&self) -> Span {
            Span::new(2, 7)
        }
        fn frames(&self) -> Vec<Frame> {
            Vec::new()
        }
    }
    let rendered = render(&Dummy, "prog.yara", "x = 5\ny = x @ 2\n");
    assert_eq!(
        rendered,
        "type error: boom\n  --> prog.yara:2:7\n  |\n2 | y = x @ 2\n  |       ^\n"
    );
}

/// `add_file` hands out disjoint, ascending ranges and `lookup` resolves a
/// line inside each range to its file.
#[test]
fn source_map_assigns_disjoint_ranges_and_looks_them_up() {
    let mut map = SourceMap::new("main.yara", "a\nb\nc\n"); // lines 1..=3
    let off1 = map.add_file("one.yara".into(), "x\ny\n".into()); // lines 4..=5
    let off2 = map.add_file("two.yara".into(), "z\n".into()); // line 6
    assert_eq!(off1, 3);
    assert_eq!(off2, 5);
    assert_eq!(map.lookup(2).path, "main.yara");
    assert_eq!(map.lookup(4).path, "one.yara");
    assert_eq!(map.lookup(5).path, "one.yara");
    assert_eq!(map.lookup(6).path, "two.yara");
}

/// An empty imported file still reserves one line.
#[test]
fn source_map_empty_file_reserves_a_line() {
    let mut map = SourceMap::new("main.yara", "a\n");
    let off_empty = map.add_file("empty.yara".into(), "".into());
    let off_next = map.add_file("next.yara".into(), "x\n".into());
    assert_eq!(off_empty, 1);
    assert_eq!(off_next, 2);
}

/// A span in an imported file's range renders with that file's path, local
/// line number and snippet.
#[test]
fn render_with_map_uses_imported_file_for_its_range() {
    struct Dummy;
    impl Diagnostic for Dummy {
        fn kind(&self) -> &str {
            "type error"
        }
        fn message(&self) -> &str {
            "boom"
        }
        fn span(&self) -> Span {
            Span::new(4, 5) // virtual line 4 = helper.yara local line 2
        }
        fn frames(&self) -> Vec<Frame> {
            Vec::new()
        }
    }
    let mut map = SourceMap::new("main.yara", "a\nb\n"); // lines 1..=2
    map.add_file("helper.yara".into(), "h1\nbad line\n".into()); // 3..=4
    let rendered = render_with_map(&Dummy, &map);
    assert_eq!(
        rendered,
        "type error: boom\n  --> helper.yara:2:5\n  |\n2 | bad line\n  |     ^\n"
    );
}

/// With a localized vocabulary, both the header and the frame words are localized.
#[test]
fn render_with_map_and_vocab_localizes_kind_and_frame_words() {
    struct Dummy;
    impl Diagnostic for Dummy {
        fn kind(&self) -> &str {
            "type error"
        }
        fn message(&self) -> &str {
            "boom"
        }
        fn span(&self) -> Span {
            Span::new(1, 1)
        }
        fn frames(&self) -> Vec<Frame> {
            vec![Frame {
                name: "helper".to_string(),
                span: Span::new(1, 1),
            }]
        }
    }
    let vocab = parse_vocabulary(
        "[messages]\ndiag/type-error = erro de tipo\ndiag/frame-in = em\ndiag/frame-at = as\n",
    )
    .unwrap();
    let map = SourceMap::new("main.yara", "x = 1\n");
    let rendered = render_with_map_and_vocab(&Dummy, &map, Some(&vocab));
    assert!(rendered.starts_with("erro de tipo: boom\n"));
    assert!(rendered.contains("  em `helper` as main.yara:1:1\n"));
}

#[test]
fn english_vocabulary_renders_like_no_vocabulary() {
    let err = ParseError { message: "expected `end`".into(), line: 1, column: 3 };
    let map = SourceMap::new("p.yara", "x = (\n");
    let english = Vocabulary::english();
    assert_eq!(
        render_with_map_and_vocab(&err, &map, Some(&english)),
        render_with_map(&err, &map)
    );
    assert_eq!(render_with_map(&err, &map), "parse error: expected `end`\n  --> p.yara:1:3\n  |\n1 | x = (\n  |   ^\n");
}

#[test]
fn runtime_error_prints_its_stack_innermost_first() {
    let err = RuntimeError {
        message: "division by zero".into(),
        line: 3,
        column: 9,
        call_stack: vec![
            StackFrame { function_name: "outer".into(), line: 5, column: 1 },
            StackFrame { function_name: "inner".into(), line: 2, column: 3 },
        ],
    };
    assert_eq!(
        err.display(),
        "error: division by zero\n  at 3:9\n  in `inner` at 2:3\n  in `outer` at 5:1\n"
    );
    let frames = err.frames();
    assert_eq!(frames.len(), 2);
    assert_eq!(frames[0].name, "inner");
    assert_eq!(frames[0].span, Span::new(2, 3));
    assert_eq!(frames[1].name, "outer");
    let source = "a\nb\nc = 1 / 0\nd\ne\n";
    let rendered = render(&err, "m.yara", source);
    assert_eq!(
        rendered,
        "runtime error: division by zero\n  --> m.yara:3:9\n  |\n3 | c = 1 / 0\n  |         ^\n  in `inner` at m.yara:2:3\n  |\n2 | b\n  |   ^\n  in `outer` at m.yara:5:1\n  |\n5 | e\n  | ^\n"
    );
}

#[test]
fn import_errors_render_with_their_label() {
    let err = ResolveError { message: "cannot read `x.yara`".into(), line: 1, column: 1 };
    assert_eq!(err.kind(), "import error");
    assert_eq!(err.display(), "1:1: cannot read `x.yara`");
    let vocab = parse_vocabulary("[messages]\ndiag/import-error = erro de importacao\n").unwrap();
    let map = SourceMap::new("m.yara", "import \"x\"\n");
    assert!(render_with_map_and_vocab(&err, &map, Some(&vocab)).starts_with("erro de importacao: cannot read"));
}

#[test]
fn clone_of_a_source_map_resolves_the_same_files() {
    let mut map = SourceMap::new("main.yara", "a\n");
    map.add_file("b.yara".into(), "x\ny\nz\n".into());
    let copy = map.clone();
    assert_eq!(copy.lookup(4).path, "b.yara");
    assert_eq!(copy.lookup(1).path, "main.yara");
    assert_eq!(copy.next_start_line(), Some(5));
}
