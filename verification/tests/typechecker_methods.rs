//! Methods on primitive values (`xs.size()`, `2.to_s()`, `p.deref()`) and the
//! pointer builtins, through `TypeChecker::check_program`, each program
//! written out as the syntax tree its source text parses to.

use yara::ast::{Expr, Stmt, TypeAnnotation, UnOp};
use yara::typechecker::{TypeChecker, TypeError};

fn ann(name: &str, line: usize, column: usize) -> TypeAnnotation {
    TypeAnnotation { name: name.to_string(), line, column }
}

fn int_lit(value: i64, line: usize, column: usize) -> Expr {
    Expr::IntLit { value, line, column }
}

fn float(text: &str, line: usize, column: usize) -> Expr {
    Expr::FloatLit { text: text.to_string(), line, column }
}

fn string(value: &str, line: usize, column: usize) -> Expr {
    Expr::StringLit { value: value.to_string(), line, column }
}

fn ident(name: &str, line: usize, column: usize) -> Expr {
    Expr::Ident { name: name.to_string(), line, column }
}

fn call(callee: &str, args: Vec<Expr>, line: usize, column: usize) -> Expr {
    Expr::Call { callee: callee.to_string(), args, line, column }
}

fn array(elements: Vec<Expr>, line: usize, column: usize) -> Expr {
    Expr::ArrayLit { elements, line, column }
}

fn method(object: Expr, method: &str, args: Vec<Expr>, line: usize, column: usize) -> Expr {
    Expr::MethodCall { object: Box::new(object), method: method.to_string(), args, line, column }
}

fn var(name: &str, type_ann: Option<TypeAnnotation>, value: Expr, line: usize, column: usize) -> Stmt {
    Stmt::VarDecl { name: name.to_string(), type_ann, value, line, column }
}

fn typed(name: &str, ty: &str, value: Expr, line: usize) -> Stmt {
    var(name, Some(ann(ty, line, name.len() + 3)), value, line, 1)
}

fn expr(e: Expr) -> Stmt {
    Stmt::ExprStmt(e)
}

fn check(program: Vec<Stmt>) -> Result<(), TypeError> {
    TypeChecker::new().check_program(&program)
}

/// `xs: IntArray = [1, 2]` on line 1.
fn int_array_one_two() -> Stmt {
    typed("xs", "IntArray", array(vec![int_lit(1, 1, 17), int_lit(2, 1, 20)], 1, 16), 1)
}

/// `xs: IntArray = []` on line 1.
fn empty_int_array() -> Stmt {
    typed("xs", "IntArray", array(vec![], 1, 16), 1)
}

/// `p: Ptr<Int> = alloc(5)` on line 1.
fn pointer_to_five() -> Stmt {
    typed("p", "Ptr<Integer>", call("alloc", vec![int_lit(5, 1, 21)], 1, 15), 1)
}

#[test]
fn methods_array_size_method() {
    // xs: IntArray = [1, 2, 3]\nn: Int = xs.size()
    let program = vec![
        typed("xs", "IntArray", array(vec![int_lit(1, 1, 17), int_lit(2, 1, 20), int_lit(3, 1, 23)], 1, 16), 1),
        typed("n", "Integer", method(ident("xs", 2, 10), "size", vec![], 2, 12), 2),
    ];
    assert!(check(program).is_ok());
}

#[test]
fn methods_array_push_method() {
    // xs: IntArray = []\nxs.push(5)
    let program = vec![empty_int_array(), expr(method(ident("xs", 2, 1), "push", vec![int_lit(5, 2, 9)], 2, 3))];
    assert!(check(program).is_ok());
}

#[test]
fn methods_array_push_wrong_type() {
    // xs: IntArray = []\nxs.push("bad")
    let program = vec![empty_int_array(), expr(method(ident("xs", 2, 1), "push", vec![string("bad", 2, 9)], 2, 3))];
    let err = check(program).unwrap_err();
    assert!(err.message.contains("push"));
}

#[test]
fn methods_array_get_method() {
    // xs: IntArray = [1, 2]\nn: Int = xs.get(0)
    let program = vec![
        int_array_one_two(),
        typed("n", "Integer", method(ident("xs", 2, 10), "get", vec![int_lit(0, 2, 17)], 2, 12), 2),
    ];
    assert!(check(program).is_ok());
}

#[test]
fn methods_array_set_method() {
    // xs: IntArray = [1, 2]\nxs.set(0, 99)
    let program = vec![
        int_array_one_two(),
        expr(method(ident("xs", 2, 1), "set", vec![int_lit(0, 2, 8), int_lit(99, 2, 11)], 2, 3)),
    ];
    assert!(check(program).is_ok());
}

#[test]
fn methods_array_pop_method() {
    // xs: IntArray = [1, 2]\nn: Int = xs.pop()
    let program = vec![int_array_one_two(), typed("n", "Integer", method(ident("xs", 2, 10), "pop", vec![], 2, 12), 2)];
    assert!(check(program).is_ok());
}

#[test]
fn methods_array_is_empty_method() {
    // xs: IntArray = []\nb: Boolean = xs.is_empty()
    let program = vec![empty_int_array(), typed("b", "Boolean", method(ident("xs", 2, 14), "is_empty", vec![], 2, 16), 2)];
    assert!(check(program).is_ok());
}

fn string_then(value: &str, result: &str, result_type: &str, m: &str) -> Vec<Stmt> {
    vec![
        typed("s", "String", string(value, 1, 13), 1),
        typed(result, result_type, method(ident("s", 2, result.len() + result_type.len() + 6), m, vec![], 2, 10), 2),
    ]
}

#[test]
fn methods_string_size_method() {
    // s: String = "hello"\nn: Int = s.size()
    assert!(check(string_then("hello", "n", "Integer", "size")).is_ok());
}

#[test]
fn methods_string_upper_method() {
    // s: String = "hello"\ns2: String = s.upper()
    assert!(check(string_then("hello", "s2", "String", "upper")).is_ok());
}

#[test]
fn methods_string_lower_method() {
    // s: String = "HELLO"\ns2: String = s.lower()
    assert!(check(string_then("HELLO", "s2", "String", "lower")).is_ok());
}

#[test]
fn methods_string_trim_method() {
    // s: String = "  hi  "\ns2: String = s.trim()
    assert!(check(string_then("  hi  ", "s2", "String", "trim")).is_ok());
}

#[test]
fn methods_string_is_empty_method() {
    // s: String = ""\nb: Boolean = s.is_empty()
    assert!(check(string_then("", "b", "Boolean", "is_empty")).is_ok());
}

#[test]
fn methods_string_to_i_method() {
    // s: String = "42"\nn: Int = s.to_i()
    assert!(check(string_then("42", "n", "Integer", "to_i")).is_ok());
}

#[test]
fn methods_string_to_f_method() {
    // s: String = "3.14"\nf: Float = s.to_f()
    assert!(check(string_then("3.14", "f", "Float", "to_f")).is_ok());
}

#[test]
fn methods_string_to_s_method() {
    // s: String = "hello"\ns2: String = s.to_s()
    assert!(check(string_then("hello", "s2", "String", "to_s")).is_ok());
}

fn int_then(value: Expr, result: &str, result_type: &str, m: &str) -> Vec<Stmt> {
    vec![typed("n", "Integer", value, 1), typed(result, result_type, method(ident("n", 2, 10), m, vec![], 2, 11), 2)]
}

fn minus(e: Expr, line: usize, column: usize) -> Expr {
    Expr::Unary { op: UnOp::Neg, expr: Box::new(e), line, column }
}

#[test]
fn methods_int_to_s_method() {
    // n: Int = 42\ns: String = n.to_s()
    assert!(check(int_then(int_lit(42, 1, 10), "s", "String", "to_s")).is_ok());
}

#[test]
fn methods_int_to_f_method() {
    // n: Int = 42\nf: Float = n.to_f()
    assert!(check(int_then(int_lit(42, 1, 10), "f", "Float", "to_f")).is_ok());
}

#[test]
fn methods_int_abs_method() {
    // n: Int = -42\nm: Int = n.abs()
    assert!(check(int_then(minus(int_lit(42, 1, 11), 1, 10), "m", "Integer", "abs")).is_ok());
}

fn float_then(value: Expr, result: &str, result_type: &str, m: &str) -> Vec<Stmt> {
    vec![typed("f", "Float", value, 1), typed(result, result_type, method(ident("f", 2, 10), m, vec![], 2, 11), 2)]
}

#[test]
fn methods_float_to_s_method() {
    // f: Float = 3.14\ns: String = f.to_s()
    assert!(check(float_then(float("3.14", 1, 12), "s", "String", "to_s")).is_ok());
}

#[test]
fn methods_float_to_i_method() {
    // f: Float = 3.14\nn: Int = f.to_i()
    assert!(check(float_then(float("3.14", 1, 12), "n", "Integer", "to_i")).is_ok());
}

#[test]
fn methods_float_abs_method() {
    // f: Float = -3.14\ng: Float = f.abs()
    assert!(check(float_then(minus(float("3.14", 1, 13), 1, 12), "g", "Float", "abs")).is_ok());
}

#[test]
fn methods_bool_to_s_method() {
    // b: Boolean = true\ns: String = b.to_s()
    let program = vec![
        typed("b", "Boolean", Expr::BoolLit { value: true, line: 1, column: 14 }, 1),
        typed("s", "String", method(ident("b", 2, 13), "to_s", vec![], 2, 14), 2),
    ];
    assert!(check(program).is_ok());
}

#[test]
fn methods_ptr_deref_method() {
    // p: Ptr<Int> = alloc(5)\nn: Int = p.deref()
    let program = vec![pointer_to_five(), typed("n", "Integer", method(ident("p", 2, 10), "deref", vec![], 2, 11), 2)];
    assert!(check(program).is_ok());
}

#[test]
fn methods_ptr_set_deref_method() {
    // p: Ptr<Int> = alloc(5)\np.set_deref(10)
    let program = vec![pointer_to_five(), expr(method(ident("p", 2, 1), "set_deref", vec![int_lit(10, 2, 13)], 2, 2))];
    assert!(check(program).is_ok());
}

#[test]
fn methods_ptr_free_method() {
    // p: Ptr<Int> = alloc(5)\np.free()
    let program = vec![pointer_to_five(), expr(method(ident("p", 2, 1), "free", vec![], 2, 2))];
    assert!(check(program).is_ok());
}

#[test]
fn methods_unknown_method_error() {
    // n: Int = 42\nresult = n.nope()
    let program = vec![
        typed("n", "Integer", int_lit(42, 1, 10), 1),
        var("result", None, method(ident("n", 2, 10), "nope", vec![], 2, 11), 2, 1),
    ];
    let err = check(program).unwrap_err();
    assert!(err.message.contains("no method"));
}

#[test]
fn methods_method_arity_error() {
    // n: Int = 42\nresult = n.to_s(1)
    let program = vec![
        typed("n", "Integer", int_lit(42, 1, 10), 1),
        var("result", None, method(ident("n", 2, 10), "to_s", vec![int_lit(1, 2, 17)], 2, 11), 2, 1),
    ];
    let err = check(program).unwrap_err();
    assert!(err.message.contains("expects 0 argument"));
}

#[test]
fn methods_conversion_result_usable_in_assignment() {
    // n: Int = 42\nf: Float = n.to_f()
    assert!(check(int_then(int_lit(42, 1, 10), "f", "Float", "to_f")).is_ok());
}

#[test]
fn unknown_method_lists_what_the_receiver_has() {
    // n: Int = 42\nresult = n.nope()
    let program = vec![
        typed("n", "Integer", int_lit(42, 1, 10), 1),
        var("result", None, method(ident("n", 2, 10), "nope", vec![], 2, 11), 2, 1),
    ];
    let err = check(program).unwrap_err();
    assert_eq!(err.message, "`Integer` has no method `nope` (available: to_s, to_f, abs)");
    assert_eq!((err.line, err.column), (2, 11));
}

#[test]
fn method_arity_message_names_the_receiver_type() {
    // xs: IntArray = []\nxs.push()
    let program = vec![empty_int_array(), expr(method(ident("xs", 2, 1), "push", vec![], 2, 3))];
    let err = check(program).unwrap_err();
    assert_eq!(err.message, "`Array<Integer>#push` expects 1 argument(s), found 0");
}

#[test]
fn array_push_mismatch_message() {
    let program = vec![empty_int_array(), expr(method(ident("xs", 2, 1), "push", vec![string("bad", 2, 9)], 2, 3))];
    let err = check(program).unwrap_err();
    assert_eq!(err.message, "`Array<Integer>#push` expects `Integer`, found `String`");
}

#[test]
fn array_get_index_must_be_integer() {
    let program = vec![int_array_one_two(), expr(method(ident("xs", 2, 1), "get", vec![string("0", 2, 8)], 2, 3))];
    let err = check(program).unwrap_err();
    assert_eq!(err.message, "`Array#get` index must be `Integer`, found `String`");
}

#[test]
fn nil_has_no_methods() {
    // x = nil\nx.to_s()
    let program = vec![
        var("x", None, Expr::NilLit { line: 1, column: 5 }, 1, 1),
        expr(method(ident("x", 2, 1), "to_s", vec![], 2, 2)),
    ];
    let err = check(program).unwrap_err();
    assert_eq!(err.message, "cannot call method `to_s` on `Nil`");
}

#[test]
fn pointer_builtins_follow_the_pointee_type() {
    // p: Ptr<Integer> = alloc(5)\nx: Integer = deref(p)\nset_deref(p, 9)\nfree(p)\nn: Integer = collect()
    let program = vec![
        pointer_to_five(),
        typed("x", "Integer", call("deref", vec![ident("p", 2, 20)], 2, 14), 2),
        expr(call("set_deref", vec![ident("p", 3, 11), int_lit(9, 3, 14)], 3, 1)),
        expr(call("free", vec![ident("p", 4, 6)], 4, 1)),
        typed("n", "Integer", call("collect", vec![], 5, 14), 5),
    ];
    assert!(check(program).is_ok());
}

#[test]
fn set_deref_mismatch_message() {
    let program = vec![pointer_to_five(), expr(call("set_deref", vec![ident("p", 2, 11), string("x", 2, 14)], 2, 1))];
    let err = check(program).unwrap_err();
    assert_eq!(err.message, "`set_deref` into `Ptr<Integer>` expects `Integer`, found `String`");
}

#[test]
fn deref_wants_a_pointer() {
    let program = vec![expr(call("deref", vec![int_lit(1, 1, 7)], 1, 1))];
    let err = check(program).unwrap_err();
    assert_eq!(err.message, "`deref` expects a pointer, found `Integer`");
}

#[test]
fn nil_is_assignable_to_a_pointer() {
    // p: Ptr<Integer> = nil\nq: Ptr<Ptr<Integer>> = alloc(p)
    let program = vec![
        typed("p", "Ptr<Integer>", Expr::NilLit { line: 1, column: 19 }, 1),
        typed("q", "Ptr<Ptr<Integer>>", call("alloc", vec![ident("p", 2, 29)], 2, 23), 2),
        typed("r", "Integer", Expr::NilLit { line: 3, column: 14 }, 3),
    ];
    let err = check(program).unwrap_err();
    assert_eq!(err.message, "type mismatch for `r`: declared `Integer`, found `Nil`");
    assert_eq!(err.line, 3);
}

#[test]
fn unknown_pointee_type_is_reported() {
    let program = vec![typed("p", "Ptr<Widget>", Expr::NilLit { line: 1, column: 18 }, 1)];
    let err = check(program).unwrap_err();
    assert_eq!(err.message, "unknown type `Widget`");
}
