//! The abstract value of a syntax tree: the same shape as `ast`, with names
//! as character sequences and lists as sequences. The grammar's rules and
//! the parser's contracts are stated over these values.

use vstd::prelude::*;
use crate::ast::{BinOp, UnOp, Expr, Stmt, TypeAnnotation, Param, FieldDecl};
use crate::typechecker::{expr_size, exprs_size, lemma_elem_size, stmt_size, stmts_size, branches_size,
    lemma_stmt_elem_size, lemma_branch_elem_size};

verus! {

/// A type annotation by value.
pub struct AnnM {
    pub name: Seq<char>,
    pub line: usize,
    pub column: usize,
}

/// A parameter or a field declaration by value: `name: Type`.
pub struct ParamM {
    pub name: Seq<char>,
    pub type_ann: AnnM,
    pub line: usize,
    pub column: usize,
}

/// An expression by value; every variant ends with its line and column.
pub enum ExprM {
    IntLit(i64, usize, usize),
    FloatLit(Seq<char>, usize, usize),
    StringLit(Seq<char>, usize, usize),
    BoolLit(bool, usize, usize),
    NilLit(usize, usize),
    Ident(Seq<char>, usize, usize),
    Binary(BinOp, Box<ExprM>, Box<ExprM>, usize, usize),
    Call(Seq<char>, Seq<ExprM>, usize, usize),
    Unary(UnOp, Box<ExprM>, usize, usize),
    ArrayLit(Seq<ExprM>, usize, usize),
    Index(Box<ExprM>, Box<ExprM>, usize, usize),
    FieldAccess(Box<ExprM>, Seq<char>, usize, usize),
    MethodCall(Box<ExprM>, Seq<char>, Seq<ExprM>, usize, usize),
}

/// A statement by value; every variant but `ExprStmt` ends with its line
/// and column.
pub enum StmtM {
    VarDecl(Seq<char>, Option<AnnM>, ExprM, usize, usize),
    ConstDecl(Seq<char>, Option<AnnM>, ExprM, usize, usize),
    FunctionDef(Seq<char>, Seq<ParamM>, Option<AnnM>, Seq<StmtM>, usize, usize),
    Return(Option<ExprM>, usize, usize),
    If(ExprM, Seq<StmtM>, Seq<(ExprM, Seq<StmtM>)>, Option<Seq<StmtM>>, usize, usize),
    While(ExprM, Seq<StmtM>, usize, usize),
    For(Seq<char>, ExprM, ExprM, Seq<StmtM>, usize, usize),
    ExprStmt(ExprM),
    Import(Seq<char>, usize, usize),
    ClassDef(Seq<char>, Option<Seq<char>>, Seq<StmtM>, Seq<ParamM>, Seq<StmtM>, usize, usize),
    FieldAssign(ExprM, Seq<char>, ExprM, usize, usize),
}

/// Where an expression value starts.
pub open spec fn exprm_pos(e: ExprM) -> (usize, usize) {
    match e {
        ExprM::IntLit(_, l, c) => (l, c),
        ExprM::FloatLit(_, l, c) => (l, c),
        ExprM::StringLit(_, l, c) => (l, c),
        ExprM::BoolLit(_, l, c) => (l, c),
        ExprM::NilLit(l, c) => (l, c),
        ExprM::Ident(_, l, c) => (l, c),
        ExprM::Binary(_, _, _, l, c) => (l, c),
        ExprM::Call(_, _, l, c) => (l, c),
        ExprM::Unary(_, _, l, c) => (l, c),
        ExprM::ArrayLit(_, l, c) => (l, c),
        ExprM::Index(_, _, l, c) => (l, c),
        ExprM::FieldAccess(_, _, l, c) => (l, c),
        ExprM::MethodCall(_, _, _, l, c) => (l, c),
    }
}

/// A type annotation's value.
pub open spec fn ann_view(a: TypeAnnotation) -> AnnM {
    AnnM { name: a.name@, line: a.line, column: a.column }
}

/// An optional type annotation's value.
pub open spec fn opt_ann_view(a: Option<TypeAnnotation>) -> Option<AnnM> {
    match a {
        Some(t) => Some(ann_view(t)),
        None => None,
    }
}

/// A parameter's value.
pub open spec fn param_view(p: Param) -> ParamM {
    ParamM { name: p.name@, type_ann: ann_view(p.type_ann), line: p.line, column: p.column }
}

/// A field declaration's value.
pub open spec fn field_view(f: FieldDecl) -> ParamM {
    ParamM { name: f.name@, type_ann: ann_view(f.type_ann), line: f.line, column: f.column }
}

/// An expression's value.
pub open spec fn expr_view(e: Expr) -> ExprM
    decreases expr_size(e), 1nat,
{
    match e {
        Expr::IntLit { value, line, column } => ExprM::IntLit(value, line, column),
        Expr::FloatLit { text, line, column } => ExprM::FloatLit(text@, line, column),
        Expr::StringLit { value, line, column } => ExprM::StringLit(value@, line, column),
        Expr::BoolLit { value, line, column } => ExprM::BoolLit(value, line, column),
        Expr::NilLit { line, column } => ExprM::NilLit(line, column),
        Expr::Ident { name, line, column } => ExprM::Ident(name@, line, column),
        Expr::Binary { op, left, right, line, column } => ExprM::Binary(
            op,
            Box::new(expr_view(*left)),
            Box::new(expr_view(*right)),
            line,
            column,
        ),
        Expr::Call { callee, args, line, column } => ExprM::Call(callee@, exprs_view(args@), line, column),
        Expr::Unary { op, expr, line, column } => ExprM::Unary(op, Box::new(expr_view(*expr)), line, column),
        Expr::ArrayLit { elements, line, column } => ExprM::ArrayLit(exprs_view(elements@), line, column),
        Expr::Index { array, index, line, column } => ExprM::Index(
            Box::new(expr_view(*array)),
            Box::new(expr_view(*index)),
            line,
            column,
        ),
        Expr::FieldAccess { object, field, line, column } => ExprM::FieldAccess(
            Box::new(expr_view(*object)),
            field@,
            line,
            column,
        ),
        Expr::MethodCall { object, method, args, line, column } => ExprM::MethodCall(
            Box::new(expr_view(*object)),
            method@,
            exprs_view(args@),
            line,
            column,
        ),
    }
}

/// A list of expressions' values, in order.
pub open spec fn exprs_view(s: Seq<Expr>) -> Seq<ExprM>
    decreases exprs_size(s), 0nat,
{
    if s.len() == 0 {
        Seq::empty()
    } else {
        proof { lemma_elem_size(s, s.len() - 1); }
        exprs_view(s.drop_last()).push(expr_view(s.last()))
    }
}

/// A statement's value.
pub open spec fn stmt_view(s: Stmt) -> StmtM
    decreases stmt_size(s), 2nat,
{
    match s {
        Stmt::VarDecl { name, type_ann, value, line, column } => StmtM::VarDecl(
            name@,
            opt_ann_view(type_ann),
            expr_view(value),
            line,
            column,
        ),
        Stmt::ConstDecl { name, type_ann, value, line, column } => StmtM::ConstDecl(
            name@,
            opt_ann_view(type_ann),
            expr_view(value),
            line,
            column,
        ),
        Stmt::FunctionDef { name, params, return_type, body, line, column } => StmtM::FunctionDef(
            name@,
            params@.map_values(|p: Param| param_view(p)),
            opt_ann_view(return_type),
            stmts_view(body@),
            line,
            column,
        ),
        Stmt::Return { value, line, column } => StmtM::Return(
            match value {
                Some(e) => Some(expr_view(e)),
                None => None,
            },
            line,
            column,
        ),
        Stmt::If { condition, then_body, elsif_branches, else_body, line, column } => StmtM::If(
            expr_view(condition),
            stmts_view(then_body@),
            branches_view(elsif_branches@),
            match else_body {
                Some(b) => Some(stmts_view(b@)),
                None => None,
            },
            line,
            column,
        ),
        Stmt::While { condition, body, line, column } => StmtM::While(expr_view(condition), stmts_view(body@), line, column),
        Stmt::For { var_name, range_start, range_end, body, line, column } => StmtM::For(
            var_name@,
            expr_view(range_start),
            expr_view(range_end),
            stmts_view(body@),
            line,
            column,
        ),
        Stmt::ExprStmt(e) => StmtM::ExprStmt(expr_view(e)),
        Stmt::Import { path, line, column } => StmtM::Import(path@, line, column),
        Stmt::ClassDef { name, parent, consts, fields, methods, line, column } => StmtM::ClassDef(
            name@,
            match parent {
                Some(p) => Some(p@),
                None => None,
            },
            stmts_view(consts@),
            fields@.map_values(|f: FieldDecl| field_view(f)),
            stmts_view(methods@),
            line,
            column,
        ),
        Stmt::FieldAssign { object, field, value, line, column } => StmtM::FieldAssign(
            expr_view(object),
            field@,
            expr_view(value),
            line,
            column,
        ),
    }
}

/// A list of statements' values, in order.
pub open spec fn stmts_view(s: Seq<Stmt>) -> Seq<StmtM>
    decreases stmts_size(s), 1nat,
{
    if s.len() == 0 {
        Seq::empty()
    } else {
        proof { lemma_stmt_elem_size(s, s.len() - 1); }
        stmts_view(s.drop_last()).push(stmt_view(s.last()))
    }
}

/// A list of `elsif` branches' values, in order.
pub open spec fn branches_view(b: Seq<(Expr, Vec<Stmt>)>) -> Seq<(ExprM, Seq<StmtM>)>
    decreases branches_size(b), 1nat,
{
    if b.len() == 0 {
        Seq::empty()
    } else {
        proof { lemma_branch_elem_size(b, b.len() - 1); }
        branches_view(b.drop_last()).push((expr_view(b.last().0), stmts_view(b.last().1@)))
    }
}


/// An expression's value starts where the expression does.
pub proof fn lemma_view_pos(e: Expr)
    ensures
        exprm_pos(expr_view(e)) == crate::ast::expr_pos(e),
{
}

} // verus!
