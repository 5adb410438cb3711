//! Moving a parsed program's lines into an imported file's range.

use yara::ast::{Expr, Stmt};
use yara::diagnostics::SourceMap;
use yara::lexer::Lexer;
use yara::parser::Parser;
use yara::shift::shifted_stmts;

fn parse(src: &str) -> Vec<Stmt> {
    let tokens = Lexer::new(src).tokenize().unwrap();
    Parser::new(tokens).parse_program().unwrap()
}

#[test]
fn shifts_statement_and_expression_lines() {
    let program = parse("x = 1\ndef f(a: Int): Int\n  a + 2\nend");
    let moved = shifted_stmts(program, 10);
    assert_eq!(moved[0].line(), 11);
    assert_eq!(moved[0].column(), 1);
    match &moved[1] {
        Stmt::FunctionDef { params, body, line, .. } => {
            assert_eq!(*line, 12);
            assert_eq!(params[0].line, 12);
            assert_eq!(params[0].type_ann.line, 12);
            match &body[0] {
                Stmt::ExprStmt(Expr::Binary { left, right, line, .. }) => {
                    assert_eq!(*line, 13);
                    assert_eq!(left.line(), 13);
                    assert_eq!(right.line(), 13);
                }
                other => panic!("expected a binary expression, got {other:?}"),
            }
        }
        other => panic!("expected FunctionDef, got {other:?}"),
    }
}

#[test]
fn shifts_class_members_and_branches() {
    let program = parse(
        "class A\n  n: Integer\n  def get(): Int\n    1\n  end\nend\nif true\n  y = 1\nelsif false\n  y = 2\nelse\n  y = 3\nend",
    );
    let moved = shifted_stmts(program, 100);
    match &moved[0] {
        Stmt::ClassDef { fields, methods, line, .. } => {
            assert_eq!(*line, 101);
            assert_eq!(fields[0].line, 102);
            assert_eq!(methods[0].line(), 103);
        }
        other => panic!("expected ClassDef, got {other:?}"),
    }
    match &moved[1] {
        Stmt::If { then_body, elsif_branches, else_body, line, .. } => {
            assert_eq!(*line, 107);
            assert_eq!(then_body[0].line(), 108);
            assert_eq!(elsif_branches[0].0.line(), 109);
            assert_eq!(elsif_branches[0].1[0].line(), 110);
            assert_eq!(else_body.as_ref().unwrap()[0].line(), 112);
        }
        other => panic!("expected If, got {other:?}"),
    }
}

#[test]
fn shifting_stops_at_the_largest_line() {
    let program = parse("x = 1");
    let moved = shifted_stmts(program, usize::MAX);
    assert_eq!(moved[0].line(), usize::MAX);
}

/// A statement of an imported file, moved by the offset its registration
/// returned, is found again in that file at its own line.
#[test]
fn moved_lines_resolve_back_to_their_file() {
    let mut map = SourceMap::new("main.yara", "import \"lib\"\nx = 1\n");
    let offset = map.add_file("lib.yara".to_string(), "a = 1\nb = 2\n".to_string());
    let moved = shifted_stmts(parse("a = 1\nb = 2\n"), offset);
    let file = map.lookup(moved[1].line());
    assert_eq!(file.path, "lib.yara");
    assert_eq!(moved[1].line() - file.start_line + 1, 2);
}
