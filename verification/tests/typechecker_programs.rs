//! Whole programs through `TypeChecker::check_program`, each written out as
//! the syntax tree its source text parses to.

use yara::ast::{BinOp, Expr, FieldDecl, Param, Stmt, TypeAnnotation, UnOp};
use yara::typechecker::{TypeChecker, TypeError};

fn ann(name: &str, line: usize, column: usize) -> TypeAnnotation {
    TypeAnnotation { name: name.to_string(), line, column }
}

fn int_lit(value: i64, line: usize, column: usize) -> Expr {
    Expr::IntLit { value, line, column }
}

fn float(text: &str, line: usize, column: usize) -> Expr {
    Expr::FloatLit { text: text.to_string(), line, column }
}

fn string(value: &str, line: usize, column: usize) -> Expr {
    Expr::StringLit { value: value.to_string(), line, column }
}

fn boolean(value: bool, line: usize, column: usize) -> Expr {
    Expr::BoolLit { value, line, column }
}

fn ident(name: &str, line: usize, column: usize) -> Expr {
    Expr::Ident { name: name.to_string(), line, column }
}

fn binary(op: BinOp, left: Expr, right: Expr, line: usize, column: usize) -> Expr {
    Expr::Binary { op, left: Box::new(left), right: Box::new(right), line, column }
}

fn call(callee: &str, args: Vec<Expr>, line: usize, column: usize) -> Expr {
    Expr::Call { callee: callee.to_string(), args, line, column }
}

fn array(elements: Vec<Expr>, line: usize, column: usize) -> Expr {
    Expr::ArrayLit { elements, line, column }
}

fn index(array: Expr, index: Expr, line: usize, column: usize) -> Expr {
    Expr::Index { array: Box::new(array), index: Box::new(index), line, column }
}

fn field(object: Expr, field: &str, line: usize, column: usize) -> Expr {
    Expr::FieldAccess { object: Box::new(object), field: field.to_string(), line, column }
}

fn method(object: Expr, method: &str, args: Vec<Expr>, line: usize, column: usize) -> Expr {
    Expr::MethodCall { object: Box::new(object), method: method.to_string(), args, line, column }
}

fn var(name: &str, type_ann: Option<TypeAnnotation>, value: Expr, line: usize, column: usize) -> Stmt {
    Stmt::VarDecl { name: name.to_string(), type_ann, value, line, column }
}

fn expr(e: Expr) -> Stmt {
    Stmt::ExprStmt(e)
}

fn param(name: &str, ty: &str, line: usize, column: usize) -> Param {
    Param { name: name.to_string(), type_ann: ann(ty, line, column + name.len() + 2), line, column }
}

fn def(name: &str, params: Vec<Param>, return_type: Option<TypeAnnotation>, body: Vec<Stmt>, line: usize) -> Stmt {
    Stmt::FunctionDef { name: name.to_string(), params, return_type, body, line, column: 1 }
}

fn check(program: Vec<Stmt>) -> Result<(), TypeError> {
    TypeChecker::new().check_program(&program)
}

/// `def add(a: Int, b: Int): Int` / `  a + b` / `end`
fn add_function() -> Stmt {
    def(
        "add",
        vec![param("a", "Integer", 1, 9), param("b", "Integer", 1, 17)],
        Some(ann("Integer", 1, 26)),
        vec![expr(binary(BinOp::Add, ident("a", 2, 3), ident("b", 2, 7), 2, 5))],
        1,
    )
}

/// The `Hello` class: a `PI` constant, a `count` field set by the initializer.
fn hello_class() -> Stmt {
    Stmt::ClassDef {
        name: "Hello".to_string(),
        parent: None,
        consts: vec![Stmt::ConstDecl {
            name: "PI".to_string(),
            type_ann: Some(ann("Float", 2, 13)),
            value: float("3.14159", 2, 21),
            line: 2,
            column: 3,
        }],
        fields: vec![FieldDecl { name: "count".to_string(), type_ann: ann("Integer", 3, 10), line: 3, column: 3 }],
        methods: vec![Stmt::FunctionDef {
            name: "initializer".to_string(),
            params: vec![param("number", "Integer", 5, 19)],
            return_type: None,
            body: vec![var("count", None, ident("number", 6, 13), 6, 5)],
            line: 5,
            column: 3,
        }],
        line: 1,
        column: 1,
    }
}

fn hello_new(args: Vec<Expr>, line: usize) -> Expr {
    method(ident("Hello", line, 5), "new", args, line, 10)
}

#[test]
fn accepts_valid_function() {
    assert!(check(vec![add_function()]).is_ok());
}

#[test]
fn rejects_int_float_mismatch() {
    let err = check(vec![
        var("x", Some(ann("Integer", 1, 4)), int_lit(5, 1, 10), 1, 1),
        var("y", Some(ann("Float", 2, 4)), float("1.0", 2, 12), 2, 1),
        var("z", None, binary(BinOp::Add, ident("x", 3, 5), ident("y", 3, 9), 3, 7), 3, 1),
    ])
    .unwrap_err();
    assert!(err.message.contains("cannot apply"));
    assert_eq!(err.message, "cannot apply `+` to `Integer` and `Float`");
}

#[test]
fn rejects_return_type_mismatch() {
    let err = check(vec![def("bad", vec![], Some(ann("Integer", 1, 12)), vec![expr(string("oops", 2, 3))], 1)])
        .unwrap_err();
    assert!(err.message.contains("declared to return"));
    assert_eq!(err.message, "function `bad` declared to return `Integer`, but returns `String`");
    assert_eq!((err.line, err.column), (1, 1));
}

#[test]
fn rejects_var_decl_type_mismatch() {
    let err = check(vec![var("x", Some(ann("Integer", 1, 4)), string("hi", 1, 10), 1, 1)]).unwrap_err();
    assert!(err.message.contains("type mismatch"));
    assert_eq!(err.message, "type mismatch for `x`: declared `Integer`, found `String`");
}

#[test]
fn string_concat_allowed() {
    assert!(check(vec![var("x", None, binary(BinOp::Add, string("a", 1, 5), string("b", 1, 11), 1, 9), 1, 1)]).is_ok());
}

#[test]
fn if_condition_must_be_boolean() {
    let err = check(vec![Stmt::If {
        condition: int_lit(5, 1, 4),
        then_body: vec![expr(int_lit(1, 2, 3))],
        elsif_branches: vec![],
        else_body: None,
        line: 1,
        column: 1,
    }])
    .unwrap_err();
    assert!(err.message.contains("must be Boolean"));
    assert_eq!(err.message, "`if` condition must be Boolean, found `Integer`");
}

#[test]
fn undefined_variable_errors_with_position() {
    let err = check(vec![expr(call("print", vec![ident("missing", 1, 7)], 1, 1))]).unwrap_err();
    assert!(err.message.contains("undefined variable"));
    assert_eq!(err.line, 1);
    assert_eq!(err.column, 7);
}

#[test]
fn function_call_arity_and_types_checked() {
    assert!(check(vec![
        add_function(),
        expr(call("print", vec![call("add", vec![int_lit(1, 4, 11), int_lit(2, 4, 14)], 4, 7)], 4, 1)),
    ])
    .is_ok());
    let err = check(vec![add_function(), expr(call("add", vec![int_lit(1, 4, 5)], 4, 1))]).unwrap_err();
    assert!(err.message.contains("expects 2 argument"));
    assert_eq!(err.message, "function `add` expects 2 argument(s), found 1");
    let err = check(vec![add_function(), expr(call("add", vec![int_lit(1, 4, 5), string("x", 4, 8)], 4, 1))])
        .unwrap_err();
    assert_eq!(err.message, "argument to `add` expects `Integer`, found `String`");
    assert_eq!((err.line, err.column), (4, 8));
}

#[test]
fn for_loop_range_must_be_integer() {
    let err = check(vec![Stmt::For {
        var_name: "i".to_string(),
        range_start: int_lit(0, 1, 10),
        range_end: string("a", 1, 13),
        body: vec![expr(call("print", vec![ident("i", 2, 9)], 2, 3))],
        line: 1,
        column: 1,
    }]);
    assert!(err.is_err());
    assert_eq!(err.unwrap_err().message, "`for` range bounds must be Integer");
}

#[test]
fn unary_negation_type() {
    let neg = |e: Expr| Expr::Unary { op: UnOp::Neg, expr: Box::new(e), line: 1, column: 5 };
    assert!(check(vec![var("x", Some(ann("Integer", 1, 4)), neg(int_lit(5, 1, 11)), 1, 1)]).is_ok());
    assert!(check(vec![var("x", Some(ann("Float", 1, 4)), neg(float("1.5", 1, 11)), 1, 1)]).is_ok());
    assert!(check(vec![var("x", None, neg(string("hi", 1, 6)), 1, 1)]).is_err());
}

/// `def fact(n: Int): Int` with an `if`/`else` as its last statement.
#[test]
fn if_else_as_tail_expr_return_type() {
    let body = vec![Stmt::If {
        condition: binary(BinOp::LtEq, ident("n", 2, 6), int_lit(1, 2, 11), 2, 8),
        then_body: vec![expr(int_lit(1, 3, 5))],
        elsif_branches: vec![],
        else_body: Some(vec![expr(binary(
            BinOp::Mul,
            ident("n", 5, 5),
            call("fact", vec![binary(BinOp::Sub, ident("n", 5, 14), int_lit(1, 5, 18), 5, 16)], 5, 9),
            5,
            7,
        ))]),
        line: 2,
        column: 3,
    }];
    assert!(check(vec![def("fact", vec![param("n", "Integer", 1, 10)], Some(ann("Integer", 1, 19)), body, 1)]).is_ok());
}

#[test]
fn if_tail_branches_must_agree_on_type() {
    let body = vec![Stmt::If {
        condition: boolean(true, 2, 6),
        then_body: vec![expr(int_lit(1, 3, 5))],
        elsif_branches: vec![],
        else_body: Some(vec![expr(string("oops", 5, 5))]),
        line: 2,
        column: 3,
    }];
    let err = check(vec![def("f", vec![], Some(ann("Integer", 1, 10)), body, 1)]).unwrap_err();
    assert!(err.message.contains("different types"));
    assert_eq!(err.message, "branches of `if` return different types: `Integer` vs `String`");
}

#[test]
fn array_literal_and_index_types() {
    assert!(check(vec![
        var("xs", Some(ann("IntArray", 1, 5)), array(vec![int_lit(1, 1, 17), int_lit(2, 1, 20), int_lit(3, 1, 23)], 1, 16), 1, 1),
        var("y", Some(ann("Integer", 2, 4)), index(ident("xs", 2, 10), int_lit(0, 2, 13), 2, 12), 2, 1),
    ])
    .is_ok());
    let err = check(vec![var(
        "xs",
        Some(ann("IntArray", 1, 5)),
        array(vec![int_lit(1, 1, 17), string("two", 1, 20)], 1, 16),
        1,
        1,
    )])
    .unwrap_err();
    assert!(err.message.contains("must share one type"));
}

#[test]
fn empty_array_literal_needs_annotation_to_infer() {
    assert!(check(vec![var("xs", Some(ann("IntArray", 1, 5)), array(vec![], 1, 16), 1, 1)]).is_ok());
}

#[test]
fn array_builtins_type_checked() {
    let xs = || var("xs", Some(ann("IntArray", 1, 5)), array(vec![int_lit(1, 1, 17), int_lit(2, 1, 20)], 1, 16), 1, 1);
    assert!(check(vec![
        xs(),
        expr(call("push", vec![ident("xs", 2, 6), int_lit(3, 2, 10)], 2, 1)),
        var("y", Some(ann("Integer", 3, 4)), call("get", vec![ident("xs", 3, 14), int_lit(0, 3, 18)], 3, 10), 3, 1),
        expr(call("set", vec![ident("xs", 4, 5), int_lit(0, 4, 9), int_lit(9, 4, 12)], 4, 1)),
        var("z", Some(ann("Integer", 5, 4)), call("len", vec![ident("xs", 5, 14)], 5, 10), 5, 1),
    ])
    .is_ok());
    let err = check(vec![xs(), expr(call("push", vec![ident("xs", 2, 6), string("oops", 2, 10)], 2, 1))]).unwrap_err();
    assert!(err.message.contains("push"));
    assert_eq!(err.message, "`push` onto `Array<Integer>` expects `Integer`, found `String`");
}

#[test]
fn pop_type_checked() {
    let xs = |elems: Vec<Expr>| var("xs", Some(ann("IntArray", 1, 5)), array(elems, 1, 16), 1, 1);
    assert!(check(vec![
        xs(vec![int_lit(1, 1, 17), int_lit(2, 1, 20)]),
        var("y", Some(ann("Integer", 2, 4)), call("pop", vec![ident("xs", 2, 14)], 2, 10), 2, 1),
    ])
    .is_ok());
    let err = check(vec![
        xs(vec![int_lit(1, 1, 17)]),
        var("y", Some(ann("String", 2, 4)), call("pop", vec![ident("xs", 2, 17)], 2, 13), 2, 1),
    ])
    .unwrap_err();
    assert!(err.message.contains("type mismatch"));
}

#[test]
fn index_requires_integer() {
    let err = check(vec![
        var("xs", Some(ann("IntArray", 1, 5)), array(vec![int_lit(1, 1, 17)], 1, 16), 1, 1),
        var("y", None, index(ident("xs", 2, 5), string("zero", 2, 8), 2, 7), 2, 1),
    ])
    .unwrap_err();
    assert!(err.message.contains("must be Integer"));
}

/// A field never assigned in `initializer` (here: no initializer at all).
#[test]
fn rejects_field_never_assigned_in_initializer() {
    let err = check(vec![Stmt::ClassDef {
        name: "Counter".to_string(),
        parent: None,
        consts: vec![],
        fields: vec![FieldDecl { name: "count".to_string(), type_ann: ann("Integer", 2, 10), line: 2, column: 3 }],
        methods: vec![],
        line: 1,
        column: 1,
    }])
    .unwrap_err();
    assert!(err.message.contains("never assigned in `initializer`"));
    assert_eq!((err.line, err.column), (2, 3));
    assert_eq!(
        err.message,
        "field `count` of class `Counter` is never assigned in `initializer` (it would be `Nil` at runtime, not `Integer`)"
    );
}

/// Assigned in a non-initializer method only: still rejected.
#[test]
fn rejects_field_assigned_only_outside_initializer() {
    let err = check(vec![Stmt::ClassDef {
        name: "Counter".to_string(),
        parent: None,
        consts: vec![],
        fields: vec![FieldDecl { name: "count".to_string(), type_ann: ann("Integer", 2, 10), line: 2, column: 3 }],
        methods: vec![def("bump", vec![], None, vec![var("count", None, int_lit(1, 5, 13), 5, 5)], 4)],
        line: 1,
        column: 1,
    }])
    .unwrap_err();
    assert!(err.message.contains("never assigned in `initializer`"));
}

/// An assignment inside an `if` branch of the initializer counts.
#[test]
fn accepts_field_assigned_conditionally_in_initializer() {
    let body = vec![Stmt::If {
        condition: ident("big", 5, 8),
        then_body: vec![var("count", None, int_lit(100, 6, 15), 6, 7)],
        elsif_branches: vec![],
        else_body: Some(vec![var("count", None, int_lit(0, 8, 15), 8, 7)]),
        line: 5,
        column: 5,
    }];
    assert!(check(vec![Stmt::ClassDef {
        name: "Counter".to_string(),
        parent: None,
        consts: vec![],
        fields: vec![FieldDecl { name: "count".to_string(), type_ann: ann("Integer", 2, 10), line: 2, column: 3 }],
        methods: vec![def("initializer", vec![param("big", "Boolean", 4, 19)], None, body, 4)],
        line: 1,
        column: 1,
    }])
    .is_ok());
}

#[test]
fn class_construction_field_access_and_method_call() {
    assert!(check(vec![
        hello_class(),
        var("h", Some(ann("Hello", 9, 4)), hello_new(vec![int_lit(5, 9, 24)], 9), 9, 1),
        var("x", Some(ann("Integer", 10, 4)), field(ident("h", 10, 10), "count", 10, 11), 10, 1),
        var("y", Some(ann("Float", 11, 4)), field(ident("h", 11, 12), "PI", 11, 13), 11, 1),
    ])
    .is_ok());
}

#[test]
fn class_field_assignment_type_checked() {
    let assign = |value: Expr| Stmt::FieldAssign {
        object: ident("h", 10, 1),
        field: "count".to_string(),
        value,
        line: 10,
        column: 2,
    };
    assert!(check(vec![hello_class(), var("h", None, hello_new(vec![int_lit(5, 9, 15)], 9), 9, 1), assign(int_lit(9, 10, 11))])
        .is_ok());
    let err = check(vec![
        hello_class(),
        var("h", None, hello_new(vec![int_lit(5, 9, 15)], 9), 9, 1),
        assign(string("oops", 10, 11)),
    ])
    .unwrap_err();
    assert!(err.message.contains("cannot assign"));
    assert_eq!(err.message, "cannot assign `String` to field `count` of type `Integer`");
}

#[test]
fn class_unknown_field_and_method_are_errors() {
    let err = check(vec![
        hello_class(),
        var("h", None, hello_new(vec![int_lit(5, 9, 15)], 9), 9, 1),
        var("x", None, field(ident("h", 10, 5), "missing", 10, 6), 10, 1),
    ])
    .unwrap_err();
    assert!(err.message.contains("has no field"));

    let err2 = check(vec![
        hello_class(),
        var("h", None, hello_new(vec![int_lit(5, 9, 15)], 9), 9, 1),
        expr(method(ident("h", 10, 1), "missing_method", vec![], 10, 2)),
    ])
    .unwrap_err();
    assert!(err2.message.contains("has no method"));
    assert_eq!(err2.message, "class `Hello` has no method `missing_method`");
}

#[test]
fn class_new_arg_count_checked() {
    let err = check(vec![hello_class(), var("h", None, hello_new(vec![int_lit(5, 9, 15), int_lit(6, 9, 18)], 9), 9, 1)])
        .unwrap_err();
    assert!(err.message.contains("expects 1 argument"));
    assert_eq!(err.message, "`Hello.new` expects 1 argument(s), found 2");
}

#[test]
fn later_declarations_in_an_if_body_stay_visible() {
    assert!(check(vec![
        Stmt::If {
            condition: boolean(true, 1, 4),
            then_body: vec![var("inner", None, int_lit(1, 2, 11), 2, 3)],
            elsif_branches: vec![],
            else_body: None,
            line: 1,
            column: 1,
        },
        expr(call("print", vec![ident("inner", 4, 7)], 4, 1)),
    ])
    .is_ok());
}

#[test]
fn function_parameters_do_not_leak_out_of_the_body() {
    let err = check(vec![add_function(), expr(call("print", vec![ident("a", 4, 7)], 4, 1))]).unwrap_err();
    assert_eq!(err.message, "undefined variable `a`");
}

#[test]
fn unknown_annotation_and_undefined_function_are_reported() {
    let err = check(vec![var("x", Some(ann("Bogus", 1, 4)), int_lit(1, 1, 12), 1, 1)]).unwrap_err();
    assert_eq!(err.message, "unknown type `Bogus`");
    assert_eq!((err.line, err.column), (1, 4));
    let err = check(vec![expr(call("nope", vec![], 1, 1))]).unwrap_err();
    assert_eq!(err.message, "undefined function `nope`");
}
