//! Single inheritance through `TypeChecker::check_program`: inherited fields
//! and methods, overriding, unknown parents and circular ancestry, each
//! program written out as the syntax tree its source text parses to.

use yara::ast::{Expr, FieldDecl, Param, Stmt, TypeAnnotation};
use yara::typechecker::{TypeChecker, TypeError};

fn ann(name: &str, line: usize, column: usize) -> TypeAnnotation {
    TypeAnnotation { name: name.to_string(), line, column }
}

fn int_lit(value: i64, line: usize, column: usize) -> Expr {
    Expr::IntLit { value, line, column }
}

fn string(value: &str, line: usize, column: usize) -> Expr {
    Expr::StringLit { value: value.to_string(), line, column }
}

fn ident(name: &str, line: usize, column: usize) -> Expr {
    Expr::Ident { name: name.to_string(), line, column }
}

fn field_of(object: Expr, field: &str, line: usize, column: usize) -> Expr {
    Expr::FieldAccess { object: Box::new(object), field: field.to_string(), line, column }
}

fn method(object: Expr, method: &str, args: Vec<Expr>, line: usize, column: usize) -> Expr {
    Expr::MethodCall { object: Box::new(object), method: method.to_string(), args, line, column }
}

fn typed(name: &str, ty: &str, value: Expr, line: usize) -> Stmt {
    Stmt::VarDecl { name: name.to_string(), type_ann: Some(ann(ty, line, name.len() + 3)), value, line, column: 1 }
}

/// `name = value` inside a method body: an assignment to a field.
fn assign(name: &str, value: Expr, line: usize) -> Stmt {
    Stmt::VarDecl { name: name.to_string(), type_ann: None, value, line, column: 5 }
}

fn field(name: &str, ty: &str, line: usize) -> FieldDecl {
    FieldDecl { name: name.to_string(), type_ann: ann(ty, line, name.len() + 5), line, column: 3 }
}

fn param(name: &str, line: usize, column: usize) -> Param {
    Param { name: name.to_string(), type_ann: ann("Integer", line, column + name.len() + 2), line, column }
}

fn def(name: &str, params: Vec<Param>, return_type: Option<&str>, body: Vec<Stmt>, line: usize) -> Stmt {
    Stmt::FunctionDef {
        name: name.to_string(),
        params,
        return_type: return_type.map(|t| ann(t, line, 20)),
        body,
        line,
        column: 3,
    }
}

fn class(name: &str, parent: Option<&str>, fields: Vec<FieldDecl>, methods: Vec<Stmt>, line: usize) -> Stmt {
    Stmt::ClassDef {
        name: name.to_string(),
        parent: parent.map(|p| p.to_string()),
        consts: vec![],
        fields,
        methods,
        line,
        column: 1,
    }
}

fn new_of(class_name: &str, args: Vec<Expr>, line: usize, column: usize) -> Expr {
    method(ident(class_name, line, column), "new", args, line, column + class_name.len())
}

fn check(program: Vec<Stmt>) -> Result<(), TypeError> {
    TypeChecker::new().check_program(&program)
}

/// `class Parent` / `value: Integer` / `def initializer(v: Int)` / `value = v` / `end` / `end`
fn parent_with_value(extra_methods: Vec<Stmt>) -> Stmt {
    let mut methods = vec![def("initializer", vec![param("v", 4, 19)], None, vec![assign("value", ident("v", 5, 13), 5)], 4)];
    methods.extend(extra_methods);
    class("Parent", None, vec![field("value", "Integer", 2)], methods, 1)
}

/// `class Child < Parent` / `def initializer(v: Int)` / `value = v` / `end` / `end`
fn child_assigning_value(line: usize) -> Stmt {
    class(
        "Child",
        Some("Parent"),
        vec![],
        vec![def("initializer", vec![param("v", line + 1, 19)], None, vec![assign("value", ident("v", line + 2, 13), line + 2)], line + 1)],
        line,
    )
}

#[test]
fn child_inherits_parent_field() {
    let program = vec![
        parent_with_value(vec![]),
        child_assigning_value(9),
        typed("c", "Child", new_of("Child", vec![int_lit(42, 15, 22)], 15, 12), 15),
        typed("x", "Integer", field_of(ident("c", 16, 10), "value", 16, 11), 16),
    ];
    assert!(check(program).is_ok());
}

#[test]
fn child_inherits_parent_method() {
    let get_value = def("get_value", vec![], Some("Integer"), vec![Stmt::ExprStmt(ident("value", 9, 5))], 8);
    let program = vec![
        parent_with_value(vec![get_value]),
        child_assigning_value(13),
        typed("c", "Child", new_of("Child", vec![int_lit(42, 19, 22)], 19, 12), 19),
        typed("x", "Integer", method(ident("c", 20, 10), "get_value", vec![], 20, 11), 20),
    ];
    assert!(check(program).is_ok());
}

#[test]
fn classes_child_overrides_parent_method() {
    let parent = class(
        "Parent",
        None,
        vec![],
        vec![def("greet", vec![], Some("String"), vec![Stmt::ExprStmt(string("Parent", 3, 5))], 2)],
        1,
    );
    let child = class(
        "Child",
        Some("Parent"),
        vec![],
        vec![def("greet", vec![], Some("String"), vec![Stmt::ExprStmt(string("Child", 9, 5))], 8)],
        7,
    );
    let program = vec![
        parent,
        child,
        typed("c", "Child", new_of("Child", vec![], 13, 12), 13),
        typed("x", "String", method(ident("c", 14, 13), "greet", vec![], 14, 14), 14),
    ];
    assert!(check(program).is_ok());
}

#[test]
fn child_overrides_parent_field_type() {
    let parent = class(
        "Parent",
        None,
        vec![field("x", "Integer", 2)],
        vec![def("initializer", vec![param("a", 4, 19)], None, vec![assign("x", ident("a", 5, 9), 5)], 4)],
        1,
    );
    let child = class(
        "Child",
        Some("Parent"),
        vec![field("y", "Integer", 10)],
        vec![def(
            "initializer",
            vec![param("a", 12, 19), param("b", 12, 27)],
            None,
            vec![assign("x", ident("a", 13, 9), 13), assign("y", ident("b", 14, 9), 14)],
            12,
        )],
        9,
    );
    let program = vec![
        parent,
        child,
        typed("c", "Child", new_of("Child", vec![int_lit(1, 19, 22), int_lit(2, 19, 25)], 19, 12), 19),
        typed("v1", "Integer", field_of(ident("c", 20, 11), "x", 20, 12), 20),
        typed("v2", "Integer", field_of(ident("c", 21, 11), "y", 21, 12), 21),
    ];
    assert!(check(program).is_ok());
}

#[test]
fn unknown_parent_class_error() {
    let err = check(vec![class("Child", Some("NonExistent"), vec![], vec![], 1)]).unwrap_err();
    assert!(err.message.contains("unknown class `NonExistent`"));
}

#[test]
fn inheritance_cycle_direct() {
    let err = check(vec![class("A", Some("B"), vec![], vec![], 1), class("B", Some("A"), vec![], vec![], 4)]).unwrap_err();
    assert!(err.message.contains("inheritance cycle") || err.message.contains("circular"));
}

#[test]
fn inheritance_cycle_indirect() {
    let err = check(vec![
        class("A", Some("B"), vec![], vec![], 1),
        class("B", Some("C"), vec![], vec![], 4),
        class("C", Some("A"), vec![], vec![], 7),
    ])
    .unwrap_err();
    assert!(err.message.contains("inheritance cycle") || err.message.contains("circular"));
}

#[test]
fn child_fails_to_assign_inherited_field() {
    let child = class("Child", Some("Parent"), vec![], vec![def("initializer", vec![], None, vec![], 10)], 9);
    let err = check(vec![parent_with_value(vec![]), child]).unwrap_err();
    assert!(
        err.message.contains("never assigned in `initializer`"),
        "Expected unassigned field error, got: {}",
        err.message
    );
}

#[test]
fn multi_level_inheritance() {
    let grand = class(
        "GrandParent",
        None,
        vec![field("a", "Integer", 2)],
        vec![
            def("initializer", vec![param("x", 4, 19)], None, vec![assign("a", ident("x", 5, 9), 5)], 4),
            def("get_a", vec![], Some("Integer"), vec![Stmt::ExprStmt(ident("a", 9, 5))], 8),
        ],
        1,
    );
    let parent = class(
        "Parent",
        Some("GrandParent"),
        vec![field("b", "Integer", 14)],
        vec![def(
            "initializer",
            vec![param("x", 16, 19), param("y", 16, 27)],
            None,
            vec![assign("a", ident("x", 17, 9), 17), assign("b", ident("y", 18, 9), 18)],
            16,
        )],
        13,
    );
    let child = class(
        "Child",
        Some("Parent"),
        vec![field("c", "Integer", 23)],
        vec![def(
            "initializer",
            vec![param("x", 25, 19), param("y", 25, 27), param("z", 25, 35)],
            None,
            vec![
                assign("a", ident("x", 26, 9), 26),
                assign("b", ident("y", 27, 9), 27),
                assign("c", ident("z", 28, 9), 28),
            ],
            25,
        )],
        22,
    );
    let program = vec![
        grand,
        parent,
        child,
        typed(
            "ch",
            "Child",
            new_of("Child", vec![int_lit(1, 32, 23), int_lit(2, 32, 26), int_lit(3, 32, 29)], 32, 13),
            32,
        ),
        typed("v1", "Integer", field_of(ident("ch", 33, 11), "a", 33, 13), 33),
        typed("v2", "Integer", field_of(ident("ch", 34, 11), "b", 34, 13), 34),
        typed("v3", "Integer", field_of(ident("ch", 35, 11), "c", 35, 13), 35),
        typed("v4", "Integer", method(ident("ch", 36, 11), "get_a", vec![], 36, 13), 36),
    ];
    assert!(check(program).is_ok());
}

#[test]
fn child_accesses_parent_and_own_fields() {
    let parent = class(
        "Parent",
        None,
        vec![field("parent_field", "Integer", 2)],
        vec![def("initializer", vec![param("p", 4, 19)], None, vec![assign("parent_field", ident("p", 5, 20), 5)], 4)],
        1,
    );
    let child = class(
        "Child",
        Some("Parent"),
        vec![field("child_field", "Integer", 10)],
        vec![def(
            "initializer",
            vec![param("p", 12, 19), param("c", 12, 27)],
            None,
            vec![assign("parent_field", ident("p", 13, 20), 13), assign("child_field", ident("c", 14, 19), 14)],
            12,
        )],
        9,
    );
    let program = vec![
        parent,
        child,
        typed("ch", "Child", new_of("Child", vec![int_lit(10, 19, 23), int_lit(20, 19, 27)], 19, 13), 19),
        typed("p", "Integer", field_of(ident("ch", 20, 10), "parent_field", 20, 12), 20),
        typed("c", "Integer", field_of(ident("ch", 21, 10), "child_field", 21, 12), 21),
    ];
    assert!(check(program).is_ok());
}

#[test]
fn unknown_parent_message_and_position() {
    let err = check(vec![class("Child", Some("NonExistent"), vec![], vec![], 3)]).unwrap_err();
    assert_eq!(err.message, "class `Child` inherits from unknown class `NonExistent`");
    assert_eq!((err.line, err.column), (3, 1));
}

#[test]
fn cycle_is_reported_at_the_class_that_closes_it() {
    // A < B, B < A: walking up from A reaches B, whose parent A is already on the path.
    let err = check(vec![class("A", Some("B"), vec![], vec![], 1), class("B", Some("A"), vec![], vec![], 4)]).unwrap_err();
    assert_eq!(err.message, "inheritance cycle detected: class `B` is circular");
    assert_eq!(err.line, 4);
}

#[test]
fn a_class_may_not_be_its_own_parent() {
    let err = check(vec![class("Loop", Some("Loop"), vec![], vec![], 2)]).unwrap_err();
    assert_eq!(err.message, "inheritance cycle detected: class `Loop` is circular");
}

#[test]
fn the_nearer_definition_wins() {
    // Parent#greet gives a String, Child#greet an Integer: the child's signature applies.
    let parent = class(
        "Parent",
        None,
        vec![],
        vec![def("greet", vec![], Some("String"), vec![Stmt::ExprStmt(string("Parent", 3, 5))], 2)],
        1,
    );
    let child = class(
        "Child",
        Some("Parent"),
        vec![],
        vec![def("greet", vec![], Some("Integer"), vec![Stmt::ExprStmt(int_lit(1, 9, 5))], 8)],
        7,
    );
    let program = vec![
        parent,
        child,
        typed("c", "Child", new_of("Child", vec![], 13, 12), 13),
        typed("x", "String", method(ident("c", 14, 13), "greet", vec![], 14, 14), 14),
    ];
    let err = check(program).unwrap_err();
    assert_eq!(err.message, "type mismatch for `x`: declared `String`, found `Integer`");
}
