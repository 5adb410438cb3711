//! The syntax tree shared by the parser, the type checker and the
//! interpreter. It is pure data: every node that stands for source syntax
//! carries the 1-indexed line and column of its first token, for
//! diagnostics only.

use vstd::prelude::*;

verus! {

/// A type name as written where a variable, parameter, field or return
/// value declares its type, already normalized to its canonical spelling.
#[derive(Debug, Clone, PartialEq)]
pub struct TypeAnnotation {
    pub name: String,
    pub line: usize,
    pub column: usize,
}

/// A function or method parameter, `name: Type`.
#[derive(Debug, Clone, PartialEq)]
pub struct Param {
    pub name: String,
    pub type_ann: TypeAnnotation,
    pub line: usize,
    pub column: usize,
}

/// A class instance-variable declaration, `name: Type`, with no value.
#[derive(Debug, Clone, PartialEq)]
pub struct FieldDecl {
    pub name: String,
    pub type_ann: TypeAnnotation,
    pub line: usize,
    pub column: usize,
}

/// Prefix operators: arithmetic negation only.
#[derive(Debug, Clone, Copy, PartialEq, Eq, Structural)]
pub enum UnOp {
    Neg,
}

/// Binary operators; precedence belongs to the grammar, not to this enum.
#[derive(Debug, Clone, Copy, PartialEq, Eq, Structural)]
pub enum BinOp {
    Add,
    Sub,
    Mul,
    Div,
    Eq,
    NotEq,
    Lt,
    Gt,
    LtEq,
    GtEq,
}

/// An expression: anything that produces a value. A float literal keeps its
/// source text (digits, a dot, digits), which is read as a number when the
/// program runs.
#[derive(Debug, PartialEq)]
pub enum Expr {
    IntLit { value: i64, line: usize, column: usize },
    FloatLit { text: String, line: usize, column: usize },
    StringLit { value: String, line: usize, column: usize },
    BoolLit { value: bool, line: usize, column: usize },
    NilLit { line: usize, column: usize },
    Ident { name: String, line: usize, column: usize },
    Binary { op: BinOp, left: Box<Expr>, right: Box<Expr>, line: usize, column: usize },
    Call { callee: String, args: Vec<Expr>, line: usize, column: usize },
    Unary { op: UnOp, expr: Box<Expr>, line: usize, column: usize },
    ArrayLit { elements: Vec<Expr>, line: usize, column: usize },
    Index { array: Box<Expr>, index: Box<Expr>, line: usize, column: usize },
    FieldAccess { object: Box<Expr>, field: String, line: usize, column: usize },
    MethodCall { object: Box<Expr>, method: String, args: Vec<Expr>, line: usize, column: usize },
}

/// The position an expression starts at: (line, column).
pub open spec fn expr_pos(e: Expr) -> (usize, usize) {
    match e {
        Expr::IntLit { line, column, .. } => (line, column),
        Expr::FloatLit { line, column, .. } => (line, column),
        Expr::StringLit { line, column, .. } => (line, column),
        Expr::BoolLit { line, column, .. } => (line, column),
        Expr::NilLit { line, column } => (line, column),
        Expr::Ident { line, column, .. } => (line, column),
        Expr::Binary { line, column, .. } => (line, column),
        Expr::Call { line, column, .. } => (line, column),
        Expr::Unary { line, column, .. } => (line, column),
        Expr::ArrayLit { line, column, .. } => (line, column),
        Expr::Index { line, column, .. } => (line, column),
        Expr::FieldAccess { line, column, .. } => (line, column),
        Expr::MethodCall { line, column, .. } => (line, column),
    }
}

impl Expr {
    /// The source line this expression starts on.
    pub fn line(&self) -> (r: usize)
        ensures
            r == expr_pos(*self).0,
    {
        match self {
            Expr::IntLit { line, .. } => *line,
            Expr::FloatLit { line, .. } => *line,
            Expr::StringLit { line, .. } => *line,
            Expr::BoolLit { line, .. } => *line,
            Expr::NilLit { line, .. } => *line,
            Expr::Ident { line, .. } => *line,
            Expr::Binary { line, .. } => *line,
            Expr::Call { line, .. } => *line,
            Expr::Unary { line, .. } => *line,
            Expr::ArrayLit { line, .. } => *line,
            Expr::Index { line, .. } => *line,
            Expr::FieldAccess { line, .. } => *line,
            Expr::MethodCall { line, .. } => *line,
        }
    }

    /// The source column this expression starts on.
    pub fn column(&self) -> (r: usize)
        ensures
            r == expr_pos(*self).1,
    {
        match self {
            Expr::IntLit { column, .. } => *column,
            Expr::FloatLit { column, .. } => *column,
            Expr::StringLit { column, .. } => *column,
            Expr::BoolLit { column, .. } => *column,
            Expr::NilLit { column, .. } => *column,
            Expr::Ident { column, .. } => *column,
            Expr::Binary { column, .. } => *column,
            Expr::Call { column, .. } => *column,
            Expr::Unary { column, .. } => *column,
            Expr::ArrayLit { column, .. } => *column,
            Expr::Index { column, .. } => *column,
            Expr::FieldAccess { column, .. } => *column,
            Expr::MethodCall { column, .. } => *column,
        }
    }
}

/// A statement: anything executed for its effect. The last statement of a
/// function body may also give the function's value.
#[derive(Debug, PartialEq)]
pub enum Stmt {
    /// `x: Type = value` or `x = value`: declares, or inside a method assigns.
    VarDecl { name: String, type_ann: Option<TypeAnnotation>, value: Expr, line: usize, column: usize },
    /// `const X: Type = value`.
    ConstDecl { name: String, type_ann: Option<TypeAnnotation>, value: Expr, line: usize, column: usize },
    FunctionDef {
        name: String,
        params: Vec<Param>,
        return_type: Option<TypeAnnotation>,
        body: Vec<Stmt>,
        line: usize,
        column: usize,
    },
    Return { value: Option<Expr>, line: usize, column: usize },
    If {
        condition: Expr,
        then_body: Vec<Stmt>,
        elsif_branches: Vec<(Expr, Vec<Stmt>)>,
        else_body: Option<Vec<Stmt>>,
        line: usize,
        column: usize,
    },
    While { condition: Expr, body: Vec<Stmt>, line: usize, column: usize },
    /// `for name in start..end`, the end exclusive.
    For { var_name: String, range_start: Expr, range_end: Expr, body: Vec<Stmt>, line: usize, column: usize },
    ExprStmt(Expr),
    /// `import "path"`, spliced away before checking.
    Import { path: String, line: usize, column: usize },
    /// `class Name` or `class Name < Parent`: constants, fields and
    /// methods; a class inherits its parent's fields and methods.
    ClassDef {
        name: String,
        parent: Option<String>,
        consts: Vec<Stmt>,
        fields: Vec<FieldDecl>,
        methods: Vec<Stmt>,
        line: usize,
        column: usize,
    },
    /// `object.field = value`.
    FieldAssign { object: Expr, field: String, value: Expr, line: usize, column: usize },
}

/// The position a statement starts at: (line, column); an expression
/// statement starts where its expression does.
pub open spec fn stmt_pos(s: Stmt) -> (usize, usize) {
    match s {
        Stmt::VarDecl { line, column, .. } => (line, column),
        Stmt::ConstDecl { line, column, .. } => (line, column),
        Stmt::FunctionDef { line, column, .. } => (line, column),
        Stmt::Return { line, column, .. } => (line, column),
        Stmt::If { line, column, .. } => (line, column),
        Stmt::While { line, column, .. } => (line, column),
        Stmt::For { line, column, .. } => (line, column),
        Stmt::ExprStmt(e) => expr_pos(e),
        Stmt::Import { line, column, .. } => (line, column),
        Stmt::ClassDef { line, column, .. } => (line, column),
        Stmt::FieldAssign { line, column, .. } => (line, column),
    }
}

impl Stmt {
    /// The source line this statement starts on.
    pub fn line(&self) -> (r: usize)
        ensures
            r == stmt_pos(*self).0,
    {
        match self {
            Stmt::VarDecl { line, .. } => *line,
            Stmt::ConstDecl { line, .. } => *line,
            Stmt::FunctionDef { line, .. } => *line,
            Stmt::Return { line, .. } => *line,
            Stmt::If { line, .. } => *line,
            Stmt::While { line, .. } => *line,
            Stmt::For { line, .. } => *line,
            Stmt::ExprStmt(e) => e.line(),
            Stmt::Import { line, .. } => *line,
            Stmt::ClassDef { line, .. } => *line,
            Stmt::FieldAssign { line, .. } => *line,
        }
    }

    /// The source column this statement starts on.
    pub fn column(&self) -> (r: usize)
        ensures
            r == stmt_pos(*self).1,
    {
        match self {
            Stmt::VarDecl { column, .. } => *column,
            Stmt::ConstDecl { column, .. } => *column,
            Stmt::FunctionDef { column, .. } => *column,
            Stmt::Return { column, .. } => *column,
            Stmt::If { column, .. } => *column,
            Stmt::While { column, .. } => *column,
            Stmt::For { column, .. } => *column,
            Stmt::ExprStmt(e) => e.column(),
            Stmt::Import { column, .. } => *column,
            Stmt::ClassDef { column, .. } => *column,
            Stmt::FieldAssign { column, .. } => *column,
        }
    }
}

} // verus!
