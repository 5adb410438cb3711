//! Programs written in a translated vocabulary, read into canonical names
//! and then type checked.

use std::rc::Rc;
use yara::ast::{Expr, Stmt};
use yara::canon::canonical_stmts;
use yara::lexer::Lexer;
use yara::parser::Parser;
use yara::translations::{parse_vocabulary, Vocabulary};
use yara::typechecker::TypeChecker;

fn read(source: &str, vocab: &Rc<Vocabulary>) -> Vec<Stmt> {
    let tokens = Lexer::with_vocabulary(source, vocab.clone()).tokenize().unwrap();
    let program = Parser::new(tokens).parse_program().unwrap();
    canonical_stmts(program, vocab)
}

fn type_checks(source: &str, vocab_text: &str) {
    let vocab = Rc::new(parse_vocabulary(vocab_text).unwrap());
    let program = read(source, &vocab);
    TypeChecker::new().check_program(&program).unwrap();
}

#[test]
fn localized_type_name_type_checks() {
    type_checks("x: Inteiro = 5\nprint(x)\n", "[types]\nInteger = Inteiro\n");
}

#[test]
fn localized_builtin_type_checks() {
    type_checks("xs: IntArray = [1, 2, 3]\nn = tamanho(xs)\nprint(n)\n", "[builtins]\nlen = tamanho\n");
}

#[test]
fn localized_print_type_checks() {
    type_checks("escreva(\"hello\")\n", "[builtins]\nprint = escreva\n");
}

#[test]
fn localized_method_type_checks() {
    type_checks(
        "xs: IntArray = [1, 2, 3]\nn: Integer = xs.tamanho()\nprint(n)\n",
        "[methods]\nsize = tamanho\n",
    );
}

#[test]
fn localized_new_type_checks() {
    type_checks(
        "class Point\n  x: Integer\n  def initializer(a: Integer)\n    x = a\n  end\nend\np = Point.criar(3)\nprint(p.x)\n",
        "[methods]\nnew = criar\n",
    );
}

#[test]
fn english_vocabulary_changes_nothing() {
    let vocab = Rc::new(Vocabulary::english());
    let program = read("xs: IntArray = [1, 2, 3]\nprint(len(xs))\nprint(xs.size())\n", &vocab);
    match &program[1] {
        Stmt::ExprStmt(Expr::Call { callee, args, .. }) => {
            assert_eq!(callee, "print");
            match &args[0] {
                Expr::Call { callee, .. } => assert_eq!(callee, "len"),
                other => panic!("expected a call, got {other:?}"),
            }
        }
        other => panic!("expected a call, got {other:?}"),
    }
    TypeChecker::new().check_program(&program).unwrap();
}

#[test]
fn localized_names_become_canonical() {
    let vocab = Rc::new(
        parse_vocabulary("[types]\nInteger = Inteiro\n[builtins]\nlen = tamanho\n[methods]\nsize = medida\n").unwrap(),
    );
    let program = read("x: Inteiro = tamanho([1])\ny = [1].medida()\n", &vocab);
    match &program[0] {
        Stmt::VarDecl { type_ann, value, .. } => {
            assert_eq!(type_ann.as_ref().unwrap().name, "Integer");
            match value {
                Expr::Call { callee, .. } => assert_eq!(callee, "len"),
                other => panic!("expected a call, got {other:?}"),
            }
        }
        other => panic!("expected VarDecl, got {other:?}"),
    }
    match &program[1] {
        Stmt::VarDecl { value: Expr::MethodCall { method, line, .. }, .. } => {
            assert_eq!(method, "size");
            assert_eq!(*line, 2);
        }
        other => panic!("expected a method call, got {other:?}"),
    }
}

#[test]
fn untranslated_program_is_refused_without_reading() {
    let vocab = Rc::new(parse_vocabulary("[types]\nInteger = Inteiro\n").unwrap());
    let tokens = Lexer::with_vocabulary("x: Inteiro = 5\n", vocab).tokenize().unwrap();
    let program = Parser::new(tokens).parse_program().unwrap();
    assert!(TypeChecker::new().check_program(&program).is_err());
}

#[test]
fn localized_pointee_type_checks() {
    type_checks("p: Ptr<Inteiro> = alloc(5)\nn: Inteiro = deref(p)\n", "[types]\nInteger = Inteiro\n");
}

#[test]
fn nested_pointer_names_are_read_inside_out() {
    let vocab = Rc::new(parse_vocabulary("[types]\nInteger = Inteiro\n").unwrap());
    let program = read("q: Ptr<Ptr<Inteiro>> = nil\n", &vocab);
    match &program[0] {
        Stmt::VarDecl { type_ann, .. } => assert_eq!(type_ann.as_ref().unwrap().name, "Ptr<Ptr<Integer>>"),
        other => panic!("expected VarDecl, got {other:?}"),
    }
}
