use yara::ast::BinOp;
use yara::diagnostics::Diagnostic;
use yara::typechecker::{binop_symbol, Type, TypeChecker};

#[test]
fn binary_operator_rules() {
    let tc = TypeChecker::new();
    assert_eq!(tc.check_binary_op(BinOp::Add, &Type::Integer, &Type::Integer, 1, 1), Ok(Type::Integer));
    assert_eq!(tc.check_binary_op(BinOp::Div, &Type::Float, &Type::Float, 1, 1), Ok(Type::Float));
    assert_eq!(tc.check_binary_op(BinOp::Add, &Type::String, &Type::String, 1, 1), Ok(Type::String));
    assert_eq!(tc.check_binary_op(BinOp::Lt, &Type::Integer, &Type::Integer, 1, 1), Ok(Type::Boolean));
    assert_eq!(tc.check_binary_op(BinOp::Eq, &Type::String, &Type::String, 1, 1), Ok(Type::Boolean));
    let err = tc.check_binary_op(BinOp::Sub, &Type::String, &Type::String, 2, 4).unwrap_err();
    assert_eq!(err.message, "cannot apply `-` to `String` and `String`");
    assert_eq!((err.line, err.column), (2, 4));
    let err = tc.check_binary_op(BinOp::Add, &Type::Integer, &Type::Float, 1, 1).unwrap_err();
    assert_eq!(err.message, "cannot apply `+` to `Integer` and `Float`");
    let err = tc
        .check_binary_op(BinOp::GtEq, &Type::Boolean, &Type::Boolean, 1, 1)
        .unwrap_err();
    assert_eq!(err.message, "cannot apply `>=` to `Boolean` and `Boolean`");
    assert_eq!(err.display(), "1:1: cannot apply `>=` to `Boolean` and `Boolean`");
    assert_eq!(err.kind(), "type error");
}

#[test]
fn operator_symbols() {
    assert_eq!(binop_symbol(BinOp::NotEq), "!=");
    assert_eq!(binop_symbol(BinOp::LtEq), "<=");
    assert_eq!(binop_symbol(BinOp::Mul), "*");
}

#[test]
fn annotations_resolve_to_types() {
    let tc = TypeChecker::new();
    assert_eq!(tc.resolve_type("Integer", 1, 1), Ok(Type::Integer));
    assert_eq!(tc.resolve_type("IntArray", 1, 1), Ok(Type::Array(Box::new(Type::Integer))));
    let err = tc.resolve_type("Foo", 3, 7).unwrap_err();
    assert_eq!(err.message, "unknown type `Foo`");
    assert_eq!((err.line, err.column), (3, 7));
}

#[test]
fn variables_follow_scopes() {
    let mut tc = TypeChecker::new();
    tc.declare_var("x", Type::Integer);
    tc.push_scope();
    tc.declare_var("x", Type::String);
    assert_eq!(tc.lookup_var("x"), Some(&Type::String));
    tc.pop_scope();
    assert_eq!(tc.lookup_var("x"), Some(&Type::Integer));
    assert_eq!(tc.lookup_var("y"), None);
}

#[test]
fn if_branch_types_combine() {
    assert_eq!(
        TypeChecker::combine_tail_types(Some(Type::Integer), Some(Type::Integer), 1, 1),
        Ok(Some(Type::Integer))
    );
    assert_eq!(TypeChecker::combine_tail_types(None, Some(Type::Integer), 1, 1), Ok(None));
    let err = TypeChecker::combine_tail_types(Some(Type::Integer), Some(Type::String), 4, 2).unwrap_err();
    assert_eq!(err.message, "branches of `if` return different types: `Integer` vs `String`");
}
