//! Source text through the lexer and `Parser::parse_program`.

use yara::ast::{BinOp, Expr, Stmt, UnOp};
use yara::lexer::{Lexer, TokenKind};
use yara::parser::{token_text_of, ParseError, Parser};
use yara::typechecker::TypeChecker;

fn parse(src: &str) -> Vec<Stmt> {
    let tokens = Lexer::new(src).tokenize().unwrap();
    Parser::new(tokens).parse_program().unwrap()
}

fn parse_err(src: &str) -> ParseError {
    let tokens = Lexer::new(src).tokenize().unwrap();
    Parser::new(tokens).parse_program().unwrap_err()
}

#[test]
fn parses_function_def() {
    let stmts = parse("def add(a: Int, b: Int): Int\n  a + b\nend");
    assert_eq!(stmts.len(), 1);
    match &stmts[0] {
        Stmt::FunctionDef { name, params, return_type, body, .. } => {
            assert_eq!(name, "add");
            assert_eq!(params.len(), 2);
            assert_eq!(params[0].type_ann.name, "Integer");
            assert_eq!(return_type.as_ref().unwrap().name, "Integer");
            assert_eq!(body.len(), 1);
        }
        other => panic!("expected FunctionDef, got {other:?}"),
    }
}

#[test]
fn parses_var_decl_inferred_and_explicit() {
    let stmts = parse("x = 5\ny: Float = 5.0");
    match &stmts[0] {
        Stmt::VarDecl { name, type_ann: None, .. } => assert_eq!(name, "x"),
        other => panic!("expected VarDecl, got {other:?}"),
    }
    match &stmts[1] {
        Stmt::VarDecl { name, type_ann: Some(t), .. } => {
            assert_eq!(name, "y");
            assert_eq!(t.name, "Float");
        }
        other => panic!("expected VarDecl, got {other:?}"),
    }
}

#[test]
fn parses_type_alias_in_var_decl() {
    let stmts = parse("x: Int = 5\ny: Bool = true\nz: Str = \"hi\"");
    for (stmt, expected) in stmts.iter().zip(["Integer", "Boolean", "String"]) {
        match stmt {
            Stmt::VarDecl { type_ann: Some(t), .. } => assert_eq!(t.name, expected),
            other => panic!("expected VarDecl, got {other:?}"),
        }
    }
}

#[test]
fn parses_if_elsif_else() {
    let stmts = parse("if x > 0\n  1\nelsif x < 0\n  2\nelse\n  3\nend");
    match &stmts[0] {
        Stmt::If { elsif_branches, else_body, .. } => {
            assert_eq!(elsif_branches.len(), 1);
            assert!(else_body.is_some());
        }
        other => panic!("expected If, got {other:?}"),
    }
}

#[test]
fn parses_while() {
    let stmts = parse("while x > 0\n  x = x - 1\nend");
    assert!(matches!(stmts[0], Stmt::While { .. }));
}

#[test]
fn parses_for_range() {
    let stmts = parse("for i in 0..10\n  print(i)\nend");
    match &stmts[0] {
        Stmt::For { var_name, .. } => assert_eq!(var_name, "i"),
        other => panic!("expected For, got {other:?}"),
    }
}

#[test]
fn parses_call_expr_stmt() {
    let stmts = parse("print(\"hi\")");
    match &stmts[0] {
        Stmt::ExprStmt(Expr::Call { callee, args, .. }) => {
            assert_eq!(callee, "print");
            assert_eq!(args.len(), 1);
        }
        other => panic!("expected call ExprStmt, got {other:?}"),
    }
}

#[test]
fn operator_precedence() {
    // 1 + 2 * 3 should parse as 1 + (2 * 3)
    let stmts = parse("1 + 2 * 3");
    match &stmts[0] {
        Stmt::ExprStmt(Expr::Binary { op, left, right, .. }) => {
            assert_eq!(*op, BinOp::Add);
            assert!(matches!(**left, Expr::IntLit { value: 1, .. }));
            assert!(matches!(**right, Expr::Binary { op: BinOp::Mul, .. }));
        }
        other => panic!("expected Binary, got {other:?}"),
    }
}

#[test]
fn parse_error_reports_position() {
    let err = parse_err("def foo(\n  1\nend");
    assert_eq!(err.line, 2);
}

#[test]
fn const_decl() {
    let stmts = parse("const PI: Float = 3.14");
    match &stmts[0] {
        Stmt::ConstDecl { name, type_ann, .. } => {
            assert_eq!(name, "PI");
            assert_eq!(type_ann.as_ref().unwrap().name, "Float");
        }
        other => panic!("expected ConstDecl, got {other:?}"),
    }
}

#[test]
fn parses_unary_negation() {
    let stmts = parse("x = -5");
    match &stmts[0] {
        Stmt::VarDecl { value, .. } => {
            assert!(matches!(value, Expr::Unary { op: UnOp::Neg, .. }));
        }
        other => panic!("expected VarDecl, got {other:?}"),
    }
}

#[test]
fn parses_array_literal_and_index() {
    let stmts = parse("xs = [1, 2, 3]\ny = xs[0]");
    match &stmts[0] {
        Stmt::VarDecl { value: Expr::ArrayLit { elements, .. }, .. } => assert_eq!(elements.len(), 3),
        other => panic!("expected ArrayLit VarDecl, got {other:?}"),
    }
    match &stmts[1] {
        Stmt::VarDecl { value: Expr::Index { .. }, .. } => {}
        other => panic!("expected Index VarDecl, got {other:?}"),
    }
}

#[test]
fn parses_import() {
    let stmts = parse("import \"helper\"");
    match &stmts[0] {
        Stmt::Import { path, .. } => assert_eq!(path, "helper"),
        other => panic!("expected Import, got {other:?}"),
    }
}

#[test]
fn parses_class_with_const_field_and_method() {
    let stmts = parse(
        "class Hello\n  const PI: Float = 3.14159\n  count: Integer\n\n  def initializer(number: Int)\n    count = number\n  end\nend",
    );
    match &stmts[0] {
        Stmt::ClassDef { name, consts, fields, methods, .. } => {
            assert_eq!(name, "Hello");
            assert_eq!(consts.len(), 1);
            assert_eq!(fields.len(), 1);
            assert_eq!(fields[0].name, "count");
            assert_eq!(fields[0].type_ann.name, "Integer");
            assert_eq!(methods.len(), 1);
            match &methods[0] {
                Stmt::FunctionDef { name: mname, params, .. } => {
                    assert_eq!(mname, "initializer");
                    assert_eq!(params.len(), 1);
                }
                other => panic!("expected FunctionDef, got {other:?}"),
            }
        }
        other => panic!("expected ClassDef, got {other:?}"),
    }
}

#[test]
fn parses_new_field_access_and_method_call() {
    let stmts = parse("h = Hello.new(5)\nx = h.count\nh.greet(\"hi\")\nh.count = 9");
    match &stmts[0] {
        Stmt::VarDecl { value: Expr::MethodCall { method, args, object, .. }, .. } => {
            assert_eq!(method, "new");
            assert_eq!(args.len(), 1);
            assert!(matches!(**object, Expr::Ident { .. }));
        }
        other => panic!("expected MethodCall VarDecl, got {other:?}"),
    }
    match &stmts[1] {
        Stmt::VarDecl { value: Expr::FieldAccess { field, .. }, .. } => assert_eq!(field, "count"),
        other => panic!("expected FieldAccess VarDecl, got {other:?}"),
    }
    match &stmts[2] {
        Stmt::ExprStmt(Expr::MethodCall { method, args, .. }) => {
            assert_eq!(method, "greet");
            assert_eq!(args.len(), 1);
        }
        other => panic!("expected MethodCall ExprStmt, got {other:?}"),
    }
    match &stmts[3] {
        Stmt::FieldAssign { field, .. } => assert_eq!(field, "count"),
        other => panic!("expected FieldAssign, got {other:?}"),
    }
}

#[test]
fn parses_ptr_type_annotation() {
    let stmts = parse("p: Ptr<Integer> = alloc(5)");
    match &stmts[0] {
        Stmt::VarDecl { name, type_ann: Some(t), .. } => {
            assert_eq!(name, "p");
            assert_eq!(t.name, "Ptr<Integer>");
        }
        other => panic!("expected VarDecl with Ptr type, got {other:?}"),
    }
}

#[test]
fn parses_ptr_with_alias_normalization() {
    let stmts = parse("p: Ptr<Int> = alloc(5)");
    match &stmts[0] {
        Stmt::VarDecl { type_ann: Some(t), .. } => assert_eq!(t.name, "Ptr<Integer>"),
        other => panic!("expected VarDecl with Ptr type, got {other:?}"),
    }
}

#[test]
fn parses_nested_ptr_type_annotation() {
    let stmts = parse("p: Ptr<Ptr<Integer>> = alloc(q)");
    match &stmts[0] {
        Stmt::VarDecl { type_ann: Some(t), .. } => assert_eq!(t.name, "Ptr<Ptr<Integer>>"),
        other => panic!("expected VarDecl with nested Ptr type, got {other:?}"),
    }
}

#[test]
fn parses_ptr_missing_closing_bracket() {
    let err = parse_err("p: Ptr<Integer = alloc(5)");
    assert!(err.message.contains("expected `>`"));
}

#[test]
fn token_kind_display_matches_derived_debug() {
    let cases = [
        (TokenKind::Int(5), "Int(5)"),
        (TokenKind::Float("1.5".to_string()), "Float(1.5)"),
        (TokenKind::Str("foo".to_string()), "Str(\"foo\")"),
        (TokenKind::Bool(true), "Bool(true)"),
        (TokenKind::Ident("bar".to_string()), "Ident(\"bar\")"),
        (TokenKind::Plus, "Plus"),
        (TokenKind::EqEq, "EqEq"),
        (TokenKind::Eof, "Eof"),
    ];
    for (kind, expected) in cases {
        assert_eq!(token_text_of(&kind), expected);
    }
}

#[test]
fn comparisons_and_arithmetic_group_to_the_left() {
    // 1 - 2 - 3 is (1 - 2) - 3; a < b == c is (a < b) == c.
    let stmts = parse("1 - 2 - 3\na < b == c");
    match &stmts[0] {
        Stmt::ExprStmt(Expr::Binary { op: BinOp::Sub, left, right, .. }) => {
            assert!(matches!(**left, Expr::Binary { op: BinOp::Sub, .. }));
            assert!(matches!(**right, Expr::IntLit { value: 3, .. }));
        }
        other => panic!("expected Binary, got {other:?}"),
    }
    match &stmts[1] {
        Stmt::ExprStmt(Expr::Binary { op: BinOp::Eq, left, .. }) => {
            assert!(matches!(**left, Expr::Binary { op: BinOp::Lt, .. }));
        }
        other => panic!("expected Binary, got {other:?}"),
    }
}

#[test]
fn postfix_binds_tighter_than_negation() {
    let stmts = parse("-a[0]");
    match &stmts[0] {
        Stmt::ExprStmt(Expr::Unary { expr, .. }) => assert!(matches!(**expr, Expr::Index { .. })),
        other => panic!("expected Unary, got {other:?}"),
    }
}

#[test]
fn parses_class_with_parent() {
    let stmts = parse("class Child < Parent\nend");
    match &stmts[0] {
        Stmt::ClassDef { name, parent, .. } => {
            assert_eq!(name, "Child");
            assert_eq!(parent.as_deref(), Some("Parent"));
        }
        other => panic!("expected ClassDef, got {other:?}"),
    }
}

#[test]
fn expected_token_message_names_what_was_found() {
    let err = parse_err("def foo(\n  1\nend");
    assert_eq!(err.message, "expected identifier, found Int(1)");
    assert_eq!((err.line, err.column), (2, 3));
    let err = parse_err("x = (1");
    assert_eq!(err.message, "expected `)`, found Eof");
}

#[test]
fn assignment_target_must_be_a_name_or_field() {
    let err = parse_err("f() = 2");
    assert_eq!(err.message, "invalid assignment target");
    assert_eq!((err.line, err.column), (1, 1));
}

#[test]
fn unclosed_block_is_reported_at_end_of_input() {
    let err = parse_err("while true\n  x = 1\n");
    assert_eq!(err.message, "unexpected end of input, expected `end`");
}

#[test]
fn class_body_rejects_statements() {
    let err = parse_err("class A\n  print(1)\nend");
    assert_eq!(err.message, "expected `:`, found LParen");
    let err = parse_err("class A\n  1\nend");
    assert_eq!(err.message, "expected a const, field, or method declaration inside `class`, found Int(1)");
}

#[test]
fn import_needs_a_string() {
    let err = parse_err("import helper");
    assert_eq!(err.message, "expected string literal after `import`, found Ident(\"helper\")");
}

#[test]
fn return_without_value_before_end() {
    let stmts = parse("def f()\n  return\nend");
    match &stmts[0] {
        Stmt::FunctionDef { body, .. } => assert!(matches!(body[0], Stmt::Return { value: None, .. })),
        other => panic!("expected FunctionDef, got {other:?}"),
    }
}

#[test]
fn source_through_the_type_checker() {
    let ok = parse("def add(a: Int, b: Int): Int\n  a + b\nend\nx: Int = add(1, 2)\n");
    assert!(TypeChecker::new().check_program(&ok).is_ok());
    let mixed = parse("x = 1 + 2.5\n");
    let err = TypeChecker::new().check_program(&mixed).unwrap_err();
    assert_eq!(err.message, "cannot apply `+` to `Integer` and `Float`");
    assert_eq!((err.line, err.column), (1, 7));
}
