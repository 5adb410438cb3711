//! Moving a syntax tree to another range of lines. An imported file is
//! parsed on its own lines; before its statements are spliced into the
//! importing program, every line number in them is moved into the range the
//! source map gave that file, so diagnostics raised later point back at it.
//! Columns stay as they are.

use vstd::prelude::*;
use crate::ast::{Expr, Stmt, TypeAnnotation, Param, FieldDecl};
use crate::syntax::{AnnM, ParamM, ExprM, StmtM, expr_view, exprs_view, stmt_view, stmts_view, branches_view,
    ann_view, opt_ann_view, param_view, field_view};
use crate::diagnostics::{ascending, owner_index, local_line, lemma_lookup_in_range};
use crate::typechecker::{expr_size, exprs_size, lemma_elem_size, stmt_size, stmts_size, branches_size,
    lemma_stmt_elem_size, lemma_branch_elem_size};

verus! {

/// `line` moved down by `offset`, stopping at the largest line number.
pub open spec fn moved(line: usize, offset: usize) -> usize {
    if line + offset > usize::MAX {
        usize::MAX
    } else {
        (line + offset) as usize
    }
}

/// A type annotation moved by `offset`.
pub open spec fn shift_ann(a: AnnM, offset: usize) -> AnnM {
    AnnM { line: moved(a.line, offset), ..a }
}

/// An optional type annotation moved by `offset`.
pub open spec fn shift_opt_ann(a: Option<AnnM>, offset: usize) -> Option<AnnM> {
    match a {
        Some(t) => Some(shift_ann(t, offset)),
        None => None,
    }
}

/// A parameter or field declaration moved by `offset`, its annotation too.
pub open spec fn shift_param(p: ParamM, offset: usize) -> ParamM {
    ParamM { type_ann: shift_ann(p.type_ann, offset), line: moved(p.line, offset), ..p }
}

/// An expression with every line in it moved by `offset`.
pub open spec fn shift_expr(e: ExprM, offset: usize) -> ExprM
    decreases e, 1nat,
{
    match e {
        ExprM::IntLit(v, l, c) => ExprM::IntLit(v, moved(l, offset), c),
        ExprM::FloatLit(t, l, c) => ExprM::FloatLit(t, moved(l, offset), c),
        ExprM::StringLit(v, l, c) => ExprM::StringLit(v, moved(l, offset), c),
        ExprM::BoolLit(v, l, c) => ExprM::BoolLit(v, moved(l, offset), c),
        ExprM::NilLit(l, c) => ExprM::NilLit(moved(l, offset), c),
        ExprM::Ident(n, l, c) => ExprM::Ident(n, moved(l, offset), c),
        ExprM::Binary(op, a, b, l, c) => ExprM::Binary(
            op,
            Box::new(shift_expr(*a, offset)),
            Box::new(shift_expr(*b, offset)),
            moved(l, offset),
            c,
        ),
        ExprM::Call(n, args, l, c) => ExprM::Call(n, shift_exprs(args, offset), moved(l, offset), c),
        ExprM::Unary(op, a, l, c) => ExprM::Unary(op, Box::new(shift_expr(*a, offset)), moved(l, offset), c),
        ExprM::ArrayLit(es, l, c) => ExprM::ArrayLit(shift_exprs(es, offset), moved(l, offset), c),
        ExprM::Index(a, i, l, c) => ExprM::Index(
            Box::new(shift_expr(*a, offset)),
            Box::new(shift_expr(*i, offset)),
            moved(l, offset),
            c,
        ),
        ExprM::FieldAccess(o, f, l, c) => ExprM::FieldAccess(Box::new(shift_expr(*o, offset)), f, moved(l, offset), c),
        ExprM::MethodCall(o, m, args, l, c) => ExprM::MethodCall(
            Box::new(shift_expr(*o, offset)),
            m,
            shift_exprs(args, offset),
            moved(l, offset),
            c,
        ),
    }
}

/// Each expression of a list moved by `offset`, in order.
pub open spec fn shift_exprs(s: Seq<ExprM>, offset: usize) -> Seq<ExprM>
    decreases s, 0nat,
{
    if s.len() == 0 {
        Seq::empty()
    } else {
        shift_exprs(s.drop_last(), offset).push(shift_expr(s.last(), offset))
    }
}

/// A statement with every line in it moved by `offset`.
pub open spec fn shift_stmt(s: StmtM, offset: usize) -> StmtM
    decreases s, 2nat,
{
    match s {
        StmtM::VarDecl(n, t, v, l, c) => StmtM::VarDecl(n, shift_opt_ann(t, offset), shift_expr(v, offset), moved(l, offset), c),
        StmtM::ConstDecl(n, t, v, l, c) => StmtM::ConstDecl(n, shift_opt_ann(t, offset), shift_expr(v, offset), moved(l, offset), c),
        StmtM::FunctionDef(n, ps, rt, body, l, c) => StmtM::FunctionDef(
            n,
            ps.map_values(|p: ParamM| shift_param(p, offset)),
            shift_opt_ann(rt, offset),
            shift_stmts(body, offset),
            moved(l, offset),
            c,
        ),
        StmtM::Return(v, l, c) => StmtM::Return(
            match v {
                Some(e) => Some(shift_expr(e, offset)),
                None => None,
            },
            moved(l, offset),
            c,
        ),
        StmtM::If(cond, then_body, branches, else_body, l, c) => StmtM::If(
            shift_expr(cond, offset),
            shift_stmts(then_body, offset),
            shift_branches(branches, offset),
            match else_body {
                Some(b) => Some(shift_stmts(b, offset)),
                None => None,
            },
            moved(l, offset),
            c,
        ),
        StmtM::While(cond, body, l, c) => StmtM::While(shift_expr(cond, offset), shift_stmts(body, offset), moved(l, offset), c),
        StmtM::For(n, a, b, body, l, c) => StmtM::For(
            n,
            shift_expr(a, offset),
            shift_expr(b, offset),
            shift_stmts(body, offset),
            moved(l, offset),
            c,
        ),
        StmtM::ExprStmt(e) => StmtM::ExprStmt(shift_expr(e, offset)),
        StmtM::Import(p, l, c) => StmtM::Import(p, moved(l, offset), c),
        StmtM::ClassDef(n, parent, consts, fields, methods, l, c) => StmtM::ClassDef(
            n,
            parent,
            shift_stmts(consts, offset),
            fields.map_values(|f: ParamM| shift_param(f, offset)),
            shift_stmts(methods, offset),
            moved(l, offset),
            c,
        ),
        StmtM::FieldAssign(o, f, v, l, c) => StmtM::FieldAssign(shift_expr(o, offset), f, shift_expr(v, offset), moved(l, offset), c),
    }
}

/// Each statement of a list moved by `offset`, in order.
pub open spec fn shift_stmts(s: Seq<StmtM>, offset: usize) -> Seq<StmtM>
    decreases s, 1nat,
{
    if s.len() == 0 {
        Seq::empty()
    } else {
        shift_stmts(s.drop_last(), offset).push(shift_stmt(s.last(), offset))
    }
}

/// Each `elsif` branch of a list moved by `offset`, in order.
pub open spec fn shift_branches(b: Seq<(ExprM, Seq<StmtM>)>, offset: usize) -> Seq<(ExprM, Seq<StmtM>)>
    decreases b, 1nat,
{
    if b.len() == 0 {
        Seq::empty()
    } else {
        shift_branches(b.drop_last(), offset).push((shift_expr(b.last().0, offset), shift_stmts(b.last().1, offset)))
    }
}

/// Every (line, column) position in an expression, the node's own first,
/// then its parts left to right.
pub open spec fn expr_positions(e: ExprM) -> Seq<(usize, usize)>
    decreases e, 1nat,
{
    match e {
        ExprM::IntLit(_, l, c) => seq![(l, c)],
        ExprM::FloatLit(_, l, c) => seq![(l, c)],
        ExprM::StringLit(_, l, c) => seq![(l, c)],
        ExprM::BoolLit(_, l, c) => seq![(l, c)],
        ExprM::NilLit(l, c) => seq![(l, c)],
        ExprM::Ident(_, l, c) => seq![(l, c)],
        ExprM::Binary(_, a, b, l, c) => seq![(l, c)] + expr_positions(*a) + expr_positions(*b),
        ExprM::Call(_, args, l, c) => seq![(l, c)] + exprs_positions(args),
        ExprM::Unary(_, a, l, c) => seq![(l, c)] + expr_positions(*a),
        ExprM::ArrayLit(es, l, c) => seq![(l, c)] + exprs_positions(es),
        ExprM::Index(a, i, l, c) => seq![(l, c)] + expr_positions(*a) + expr_positions(*i),
        ExprM::FieldAccess(o, _, l, c) => seq![(l, c)] + expr_positions(*o),
        ExprM::MethodCall(o, _, args, l, c) => seq![(l, c)] + expr_positions(*o) + exprs_positions(args),
    }
}

/// Every position in a list of expressions, in order.
pub open spec fn exprs_positions(s: Seq<ExprM>) -> Seq<(usize, usize)>
    decreases s, 0nat,
{
    if s.len() == 0 {
        Seq::empty()
    } else {
        exprs_positions(s.drop_last()) + expr_positions(s.last())
    }
}

/// The position of an optional annotation, if there is one.
pub open spec fn opt_ann_positions(a: Option<AnnM>) -> Seq<(usize, usize)> {
    match a {
        Some(t) => seq![(t.line, t.column)],
        None => Seq::empty(),
    }
}

/// Every position in a list of parameters or fields: each one's own, then its annotation's.
pub open spec fn params_positions(ps: Seq<ParamM>) -> Seq<(usize, usize)>
    decreases ps.len(),
{
    if ps.len() == 0 {
        Seq::empty()
    } else {
        params_positions(ps.drop_last()) + seq![(ps.last().line, ps.last().column), (ps.last().type_ann.line, ps.last().type_ann.column)]
    }
}

/// Every position in a statement, its own first, then its parts in order.
pub open spec fn stmt_positions(s: StmtM) -> Seq<(usize, usize)>
    decreases s, 2nat,
{
    match s {
        StmtM::VarDecl(_, t, x, l, c) => seq![(l, c)] + opt_ann_positions(t) + expr_positions(x),
        StmtM::ConstDecl(_, t, x, l, c) => seq![(l, c)] + opt_ann_positions(t) + expr_positions(x),
        StmtM::FunctionDef(_, ps, rt, body, l, c) => seq![(l, c)] + params_positions(ps) + opt_ann_positions(rt)
            + stmts_positions(body),
        StmtM::Return(x, l, c) => seq![(l, c)] + match x {
            Some(e) => expr_positions(e),
            None => Seq::empty(),
        },
        StmtM::If(cond, then_body, branches, else_body, l, c) => seq![(l, c)] + expr_positions(cond)
            + stmts_positions(then_body) + branches_positions(branches) + match else_body {
            Some(b) => stmts_positions(b),
            None => Seq::empty(),
        },
        StmtM::While(cond, body, l, c) => seq![(l, c)] + expr_positions(cond) + stmts_positions(body),
        StmtM::For(_, a, b, body, l, c) => seq![(l, c)] + expr_positions(a) + expr_positions(b) + stmts_positions(body),
        StmtM::ExprStmt(e) => expr_positions(e),
        StmtM::Import(_, l, c) => seq![(l, c)],
        StmtM::ClassDef(_, _, consts, fields, methods, l, c) => seq![(l, c)] + stmts_positions(consts)
            + params_positions(fields) + stmts_positions(methods),
        StmtM::FieldAssign(o, _, x, l, c) => seq![(l, c)] + expr_positions(o) + expr_positions(x),
    }
}

/// Every position in a list of statements, in order.
pub open spec fn stmts_positions(s: Seq<StmtM>) -> Seq<(usize, usize)>
    decreases s, 1nat,
{
    if s.len() == 0 {
        Seq::empty()
    } else {
        stmts_positions(s.drop_last()) + stmt_positions(s.last())
    }
}

/// Every position in a list of `elsif` branches, in order.
pub open spec fn branches_positions(b: Seq<(ExprM, Seq<StmtM>)>) -> Seq<(usize, usize)>
    decreases b, 1nat,
{
    if b.len() == 0 {
        Seq::empty()
    } else {
        branches_positions(b.drop_last()) + expr_positions(b.last().0) + stmts_positions(b.last().1)
    }
}

/// Positions with each line moved by `offset` and each column kept.
pub open spec fn moved_positions(ps: Seq<(usize, usize)>, offset: usize) -> Seq<(usize, usize)> {
    ps.map_values(|p: (usize, usize)| (moved(p.0, offset), p.1))
}

proof fn lemma_moved_concat(a: Seq<(usize, usize)>, b: Seq<(usize, usize)>, offset: usize)
    ensures
        moved_positions(a + b, offset) == moved_positions(a, offset) + moved_positions(b, offset),
{
    assert(moved_positions(a + b, offset) =~= moved_positions(a, offset) + moved_positions(b, offset));
}

proof fn lemma_params_moved(ps: Seq<ParamM>, offset: usize)
    ensures
        params_positions(ps.map_values(|p: ParamM| shift_param(p, offset))) == moved_positions(params_positions(ps), offset),
    decreases ps.len(),
{
    if ps.len() > 0 {
        let q = ps.map_values(|p: ParamM| shift_param(p, offset));
        assert(q.drop_last() =~= ps.drop_last().map_values(|p: ParamM| shift_param(p, offset)));
        lemma_params_moved(ps.drop_last(), offset);
        let last = seq![(ps.last().line, ps.last().column), (ps.last().type_ann.line, ps.last().type_ann.column)];
        lemma_moved_concat(params_positions(ps.drop_last()), last, offset);
        assert(moved_positions(last, offset) =~= seq![(q.last().line, q.last().column), (q.last().type_ann.line, q.last().type_ann.column)]);
    } else {
        assert(moved_positions(Seq::<(usize, usize)>::empty(), offset) =~= Seq::<(usize, usize)>::empty());
    }
}

/// Shifting moves every position of an expression, at every depth: each
/// line by the offset (stopping at the largest line number), each column kept.
pub proof fn lemma_shift_expr_moves_every_line(e: ExprM, offset: usize)
    ensures
        expr_positions(shift_expr(e, offset)) == moved_positions(expr_positions(e), offset),
    decreases e, 1nat,
{
    match e {
        ExprM::Binary(_, a, b, l, c) => {
            lemma_shift_expr_moves_every_line(*a, offset);
            lemma_shift_expr_moves_every_line(*b, offset);
            assert(moved_positions(seq![(l, c)] + expr_positions(*a) + expr_positions(*b), offset) =~= seq![(moved(l, offset), c)]
                + moved_positions(expr_positions(*a), offset) + moved_positions(expr_positions(*b), offset));
        },
        ExprM::Call(_, args, l, c) => {
            lemma_shift_exprs_moves_every_line(args, offset);
            assert(moved_positions(seq![(l, c)] + exprs_positions(args), offset) =~= seq![(moved(l, offset), c)]
                + moved_positions(exprs_positions(args), offset));
        },
        ExprM::Unary(_, a, l, c) => {
            lemma_shift_expr_moves_every_line(*a, offset);
            assert(moved_positions(seq![(l, c)] + expr_positions(*a), offset) =~= seq![(moved(l, offset), c)]
                + moved_positions(expr_positions(*a), offset));
        },
        ExprM::ArrayLit(es, l, c) => {
            lemma_shift_exprs_moves_every_line(es, offset);
            assert(moved_positions(seq![(l, c)] + exprs_positions(es), offset) =~= seq![(moved(l, offset), c)]
                + moved_positions(exprs_positions(es), offset));
        },
        ExprM::Index(a, i, l, c) => {
            lemma_shift_expr_moves_every_line(*a, offset);
            lemma_shift_expr_moves_every_line(*i, offset);
            assert(moved_positions(seq![(l, c)] + expr_positions(*a) + expr_positions(*i), offset) =~= seq![(moved(l, offset), c)]
                + moved_positions(expr_positions(*a), offset) + moved_positions(expr_positions(*i), offset));
        },
        ExprM::FieldAccess(o, _, l, c) => {
            lemma_shift_expr_moves_every_line(*o, offset);
            assert(moved_positions(seq![(l, c)] + expr_positions(*o), offset) =~= seq![(moved(l, offset), c)]
                + moved_positions(expr_positions(*o), offset));
        },
        ExprM::MethodCall(o, _, args, l, c) => {
            lemma_shift_expr_moves_every_line(*o, offset);
            lemma_shift_exprs_moves_every_line(args, offset);
            assert(moved_positions(seq![(l, c)] + expr_positions(*o) + exprs_positions(args), offset) =~= seq![(moved(l, offset), c)]
                + moved_positions(expr_positions(*o), offset) + moved_positions(exprs_positions(args), offset));
        },
        _ => {
            assert(moved_positions(expr_positions(e), offset) =~= expr_positions(shift_expr(e, offset)));
        },
    }
}

/// Shifting a list of expressions moves every position in it.
pub proof fn lemma_shift_exprs_moves_every_line(s: Seq<ExprM>, offset: usize)
    ensures
        exprs_positions(shift_exprs(s, offset)) == moved_positions(exprs_positions(s), offset),
    decreases s, 0nat,
{
    if s.len() > 0 {
        lemma_shift_exprs_moves_every_line(s.drop_last(), offset);
        lemma_shift_expr_moves_every_line(s.last(), offset);
        let t = shift_exprs(s, offset);
        assert(t.drop_last() =~= shift_exprs(s.drop_last(), offset));
        lemma_moved_concat(exprs_positions(s.drop_last()), expr_positions(s.last()), offset);
    } else {
        assert(moved_positions(Seq::<(usize, usize)>::empty(), offset) =~= Seq::<(usize, usize)>::empty());
    }
}

/// Shifting moves every position of a statement, at every depth (loop and
/// branch bodies, functions, classes, annotations and parameters included):
/// each line by the offset, stopping at the largest line number, each column kept.
pub proof fn lemma_shift_stmt_moves_every_line(s: StmtM, offset: usize)
    ensures
        stmt_positions(shift_stmt(s, offset)) == moved_positions(stmt_positions(s), offset),
    decreases s, 2nat,
{
    let d = offset;
    match s {
        StmtM::VarDecl(_, t, x, l, c) => {
            lemma_shift_expr_moves_every_line(x, d);
            assert(moved_positions(opt_ann_positions(t), d) =~= opt_ann_positions(shift_opt_ann(t, d)));
            assert(moved_positions(seq![(l, c)] + opt_ann_positions(t) + expr_positions(x), d) =~= seq![(moved(l, d), c)]
                + moved_positions(opt_ann_positions(t), d) + moved_positions(expr_positions(x), d));
        },
        StmtM::ConstDecl(_, t, x, l, c) => {
            lemma_shift_expr_moves_every_line(x, d);
            assert(moved_positions(opt_ann_positions(t), d) =~= opt_ann_positions(shift_opt_ann(t, d)));
            assert(moved_positions(seq![(l, c)] + opt_ann_positions(t) + expr_positions(x), d) =~= seq![(moved(l, d), c)]
                + moved_positions(opt_ann_positions(t), d) + moved_positions(expr_positions(x), d));
        },
        StmtM::FunctionDef(_, ps, rt, body, l, c) => {
            lemma_params_moved(ps, d);
            lemma_shift_stmts_moves_every_line(body, d);
            assert(moved_positions(opt_ann_positions(rt), d) =~= opt_ann_positions(shift_opt_ann(rt, d)));
            assert(moved_positions(seq![(l, c)] + params_positions(ps) + opt_ann_positions(rt) + stmts_positions(body), d)
                =~= seq![(moved(l, d), c)] + moved_positions(params_positions(ps), d) + moved_positions(opt_ann_positions(rt), d)
                + moved_positions(stmts_positions(body), d));
        },
        StmtM::Return(x, l, c) => {
            match x {
                Some(e) => {
                    lemma_shift_expr_moves_every_line(e, d);
                    assert(moved_positions(seq![(l, c)] + expr_positions(e), d) =~= seq![(moved(l, d), c)]
                        + moved_positions(expr_positions(e), d));
                },
                None => {
                    assert(moved_positions(seq![(l, c)] + Seq::<(usize, usize)>::empty(), d) =~= seq![(moved(l, d), c)]
                        + Seq::<(usize, usize)>::empty());
                },
            }
        },
        StmtM::If(cond, then_body, branches, else_body, l, c) => {
            lemma_shift_expr_moves_every_line(cond, d);
            lemma_shift_stmts_moves_every_line(then_body, d);
            lemma_shift_branches_moves_every_line(branches, d);
            let e_ps = match else_body {
                Some(b) => stmts_positions(b),
                None => Seq::<(usize, usize)>::empty(),
            };
            match else_body {
                Some(b) => {
                    lemma_shift_stmts_moves_every_line(b, d);
                },
                None => {
                    assert(moved_positions(e_ps, d) =~= Seq::<(usize, usize)>::empty());
                },
            }
            assert(moved_positions(seq![(l, c)] + expr_positions(cond) + stmts_positions(then_body) + branches_positions(branches)
                + e_ps, d) =~= seq![(moved(l, d), c)] + moved_positions(expr_positions(cond), d) + moved_positions(
                stmts_positions(then_body), d) + moved_positions(branches_positions(branches), d) + moved_positions(e_ps, d));
        },
        StmtM::While(cond, body, l, c) => {
            lemma_shift_expr_moves_every_line(cond, d);
            lemma_shift_stmts_moves_every_line(body, d);
            assert(moved_positions(seq![(l, c)] + expr_positions(cond) + stmts_positions(body), d) =~= seq![(moved(l, d), c)]
                + moved_positions(expr_positions(cond), d) + moved_positions(stmts_positions(body), d));
        },
        StmtM::For(_, a, b, body, l, c) => {
            lemma_shift_expr_moves_every_line(a, d);
            lemma_shift_expr_moves_every_line(b, d);
            lemma_shift_stmts_moves_every_line(body, d);
            assert(moved_positions(seq![(l, c)] + expr_positions(a) + expr_positions(b) + stmts_positions(body), d)
                =~= seq![(moved(l, d), c)] + moved_positions(expr_positions(a), d) + moved_positions(expr_positions(b), d)
                + moved_positions(stmts_positions(body), d));
        },
        StmtM::ExprStmt(e) => {
            lemma_shift_expr_moves_every_line(e, d);
        },
        StmtM::Import(_, l, c) => {
            assert(moved_positions(seq![(l, c)], d) =~= seq![(moved(l, d), c)]);
        },
        StmtM::ClassDef(_, _, consts, fields, methods, l, c) => {
            lemma_shift_stmts_moves_every_line(consts, d);
            lemma_params_moved(fields, d);
            lemma_shift_stmts_moves_every_line(methods, d);
            assert(moved_positions(seq![(l, c)] + stmts_positions(consts) + params_positions(fields) + stmts_positions(methods), d)
                =~= seq![(moved(l, d), c)] + moved_positions(stmts_positions(consts), d) + moved_positions(params_positions(fields), d)
                + moved_positions(stmts_positions(methods), d));
        },
        StmtM::FieldAssign(o, _, x, l, c) => {
            lemma_shift_expr_moves_every_line(o, d);
            lemma_shift_expr_moves_every_line(x, d);
            assert(moved_positions(seq![(l, c)] + expr_positions(o) + expr_positions(x), d) =~= seq![(moved(l, d), c)]
                + moved_positions(expr_positions(o), d) + moved_positions(expr_positions(x), d));
        },
    }
}

/// Shifting a list of statements moves every position in it, at every depth.
pub proof fn lemma_shift_stmts_moves_every_line(s: Seq<StmtM>, offset: usize)
    ensures
        stmts_positions(shift_stmts(s, offset)) == moved_positions(stmts_positions(s), offset),
    decreases s, 1nat,
{
    if s.len() > 0 {
        lemma_shift_stmts_moves_every_line(s.drop_last(), offset);
        lemma_shift_stmt_moves_every_line(s.last(), offset);
        let t = shift_stmts(s, offset);
        assert(t.drop_last() =~= shift_stmts(s.drop_last(), offset));
        lemma_moved_concat(stmts_positions(s.drop_last()), stmt_positions(s.last()), offset);
    } else {
        assert(moved_positions(Seq::<(usize, usize)>::empty(), offset) =~= Seq::<(usize, usize)>::empty());
    }
}

/// Shifting a list of `elsif` branches moves every position in it.
pub proof fn lemma_shift_branches_moves_every_line(b: Seq<(ExprM, Seq<StmtM>)>, offset: usize)
    ensures
        branches_positions(shift_branches(b, offset)) == moved_positions(branches_positions(b), offset),
    decreases b, 1nat,
{
    if b.len() > 0 {
        lemma_shift_branches_moves_every_line(b.drop_last(), offset);
        lemma_shift_expr_moves_every_line(b.last().0, offset);
        lemma_shift_stmts_moves_every_line(b.last().1, offset);
        let t = shift_branches(b, offset);
        assert(t.drop_last() =~= shift_branches(b.drop_last(), offset));
        assert(moved_positions(branches_positions(b.drop_last()) + expr_positions(b.last().0) + stmts_positions(b.last().1), offset)
            =~= moved_positions(branches_positions(b.drop_last()), offset) + moved_positions(expr_positions(b.last().0), offset)
            + moved_positions(stmts_positions(b.last().1), offset));
    } else {
        assert(moved_positions(Seq::<(usize, usize)>::empty(), offset) =~= Seq::<(usize, usize)>::empty());
    }
}

/// A line of an imported file, moved by the offset its registration in the
/// source map returned (one less than its first virtual line), resolves
/// through the map to that file and to the same line within it.
pub proof fn lemma_moved_line_points_home(
    files: Seq<(nat, Seq<char>, Seq<char>)>,
    start: nat,
    path: Seq<char>,
    source: Seq<char>,
    line: usize,
)
    requires
        ascending(files.push((start, path, source))),
        start >= 1,
        line >= 1,
        line + (start - 1) <= usize::MAX,
    ensures
        owner_index(files.push((start, path, source)), moved(line, (start - 1) as usize) as nat) == files.len(),
        local_line(start, moved(line, (start - 1) as usize) as nat) == line,
{
    let all = files.push((start, path, source));
    lemma_lookup_in_range(all, files.len() as int, moved(line, (start - 1) as usize) as nat);
}

fn shifted_ann(a: TypeAnnotation, offset: usize) -> (r: TypeAnnotation)
    ensures
        ann_view(r) == shift_ann(ann_view(a), offset),
{
    TypeAnnotation { name: a.name, line: a.line.saturating_add(offset), column: a.column }
}

fn shifted_opt_ann(a: Option<TypeAnnotation>, offset: usize) -> (r: Option<TypeAnnotation>)
    ensures
        opt_ann_view(r) == shift_opt_ann(opt_ann_view(a), offset),
{
    match a {
        Some(t) => Some(shifted_ann(t, offset)),
        None => None,
    }
}

fn shifted_params(v: Vec<Param>, offset: usize) -> (r: Vec<Param>)
    ensures
        r@.map_values(|p: Param| param_view(p)) == v@.map_values(|p: Param| param_view(p)).map_values(
            |p: ParamM| shift_param(p, offset),
        ),
    decreases v@.len(),
{
    let mut v = v;
    if v.len() == 0 {
        assert(v@.map_values(|p: Param| param_view(p)).map_values(|p: ParamM| shift_param(p, offset)) =~= Seq::empty());
        return v;
    }
    let ghost s = v@;
    let last = v.pop().unwrap();
    assert(v@ =~= s.drop_last());
    let mut front = shifted_params(v, offset);
    let ghost f = front@;
    let p = Param {
        name: last.name,
        type_ann: shifted_ann(last.type_ann, offset),
        line: last.line.saturating_add(offset),
        column: last.column,
    };
    front.push(p);
    proof {
        assert(f.map_values(|p: Param| param_view(p)).len() == f.len());
        assert(s.drop_last().map_values(|p: Param| param_view(p)).map_values(|p: ParamM| shift_param(p, offset)).len()
            == s.len() - 1);
        assert(f.len() == s.len() - 1);
        let lhs = front@.map_values(|p: Param| param_view(p));
        let rhs = s.map_values(|p: Param| param_view(p)).map_values(|p: ParamM| shift_param(p, offset));
        assert forall|i: int| 0 <= i < lhs.len() implies lhs[i] == rhs[i] by {
            if i < s.len() - 1 {
                assert(front@[i] == f[i]);
                assert(s.drop_last()[i] == s[i]);
                assert(f.map_values(|p: Param| param_view(p))[i] == s.drop_last().map_values(|p: Param| param_view(p)).map_values(
                    |p: ParamM| shift_param(p, offset),
                )[i]);
            }
        }
        assert(lhs =~= rhs);
    }
    front
}

fn shifted_fields(v: Vec<FieldDecl>, offset: usize) -> (r: Vec<FieldDecl>)
    ensures
        r@.map_values(|f: FieldDecl| field_view(f)) == v@.map_values(|f: FieldDecl| field_view(f)).map_values(
            |f: ParamM| shift_param(f, offset),
        ),
    decreases v@.len(),
{
    let mut v = v;
    if v.len() == 0 {
        assert(v@.map_values(|f: FieldDecl| field_view(f)).map_values(|f: ParamM| shift_param(f, offset)) =~= Seq::empty());
        return v;
    }
    let ghost s = v@;
    let last = v.pop().unwrap();
    assert(v@ =~= s.drop_last());
    let mut front = shifted_fields(v, offset);
    let ghost f = front@;
    let d = FieldDecl {
        name: last.name,
        type_ann: shifted_ann(last.type_ann, offset),
        line: last.line.saturating_add(offset),
        column: last.column,
    };
    front.push(d);
    proof {
        assert(f.map_values(|f: FieldDecl| field_view(f)).len() == f.len());
        assert(s.drop_last().map_values(|f: FieldDecl| field_view(f)).map_values(|f: ParamM| shift_param(f, offset)).len()
            == s.len() - 1);
        assert(f.len() == s.len() - 1);
        let lhs = front@.map_values(|f: FieldDecl| field_view(f));
        let rhs = s.map_values(|f: FieldDecl| field_view(f)).map_values(|f: ParamM| shift_param(f, offset));
        assert forall|i: int| 0 <= i < lhs.len() implies lhs[i] == rhs[i] by {
            if i < s.len() - 1 {
                assert(front@[i] == f[i]);
                assert(s.drop_last()[i] == s[i]);
                assert(f.map_values(|f: FieldDecl| field_view(f))[i] == s.drop_last().map_values(|f: FieldDecl| field_view(f)).map_values(
                    |f: ParamM| shift_param(f, offset),
                )[i]);
            }
        }
        assert(lhs =~= rhs);
    }
    front
}

impl Expr {
    /// This expression with every line in it moved down by `offset`
    /// (stopping at the largest line number); columns are kept.
    pub fn shifted(self, offset: usize) -> (r: Expr)
        ensures
            expr_view(r) == shift_expr(expr_view(self), offset),
        decreases expr_size(self),
    {
        match self {
            Expr::IntLit { value, line, column } => Expr::IntLit { value, line: line.saturating_add(offset), column },
            Expr::FloatLit { text, line, column } => Expr::FloatLit { text, line: line.saturating_add(offset), column },
            Expr::StringLit { value, line, column } => Expr::StringLit { value, line: line.saturating_add(offset), column },
            Expr::BoolLit { value, line, column } => Expr::BoolLit { value, line: line.saturating_add(offset), column },
            Expr::NilLit { line, column } => Expr::NilLit { line: line.saturating_add(offset), column },
            Expr::Ident { name, line, column } => Expr::Ident { name, line: line.saturating_add(offset), column },
            Expr::Binary { op, left, right, line, column } => {
                let l = (*left).shifted(offset);
                let r = (*right).shifted(offset);
                Expr::Binary { op, left: Box::new(l), right: Box::new(r), line: line.saturating_add(offset), column }
            },
            Expr::Call { callee, args, line, column } => {
                let a = shifted_exprs(args, offset);
                Expr::Call { callee, args: a, line: line.saturating_add(offset), column }
            },
            Expr::Unary { op, expr, line, column } => {
                let e = (*expr).shifted(offset);
                Expr::Unary { op, expr: Box::new(e), line: line.saturating_add(offset), column }
            },
            Expr::ArrayLit { elements, line, column } => {
                let es = shifted_exprs(elements, offset);
                Expr::ArrayLit { elements: es, line: line.saturating_add(offset), column }
            },
            Expr::Index { array, index, line, column } => {
                let a = (*array).shifted(offset);
                let i = (*index).shifted(offset);
                Expr::Index { array: Box::new(a), index: Box::new(i), line: line.saturating_add(offset), column }
            },
            Expr::FieldAccess { object, field, line, column } => {
                let o = (*object).shifted(offset);
                Expr::FieldAccess { object: Box::new(o), field, line: line.saturating_add(offset), column }
            },
            Expr::MethodCall { object, method, args, line, column } => {
                let o = (*object).shifted(offset);
                let a = shifted_exprs(args, offset);
                Expr::MethodCall { object: Box::new(o), method, args: a, line: line.saturating_add(offset), column }
            },
        }
    }
}

fn shifted_exprs(v: Vec<Expr>, offset: usize) -> (r: Vec<Expr>)
    ensures
        exprs_view(r@) == shift_exprs(exprs_view(v@), offset),
    decreases exprs_size(v@),
{
    let mut v = v;
    if v.len() == 0 {
        return v;
    }
    let ghost s = v@;
    let last = v.pop().unwrap();
    proof {
        lemma_elem_size(s, s.len() - 1);
        assert(v@ =~= s.drop_last());
    }
    let mut front = shifted_exprs(v, offset);
    let e = last.shifted(offset);
    let ghost f = front@;
    front.push(e);
    assert(front@.drop_last() =~= f);
    assert(exprs_view(s).drop_last() =~= exprs_view(s.drop_last()));
    front
}

impl Stmt {
    /// This statement with every line in it moved down by `offset`
    /// (stopping at the largest line number); columns are kept.
    pub fn shifted(self, offset: usize) -> (r: Stmt)
        ensures
            stmt_view(r) == shift_stmt(stmt_view(self), offset),
        decreases stmt_size(self),
    {
        match self {
            Stmt::VarDecl { name, type_ann, value, line, column } => {
                let t = shifted_opt_ann(type_ann, offset);
                let v = value.shifted(offset);
                Stmt::VarDecl { name, type_ann: t, value: v, line: line.saturating_add(offset), column }
            },
            Stmt::ConstDecl { name, type_ann, value, line, column } => {
                let t = shifted_opt_ann(type_ann, offset);
                let v = value.shifted(offset);
                Stmt::ConstDecl { name, type_ann: t, value: v, line: line.saturating_add(offset), column }
            },
            Stmt::FunctionDef { name, params, return_type, body, line, column } => {
                let ps = shifted_params(params, offset);
                let rt = shifted_opt_ann(return_type, offset);
                let b = shifted_stmts(body, offset);
                Stmt::FunctionDef { name, params: ps, return_type: rt, body: b, line: line.saturating_add(offset), column }
            },
            Stmt::Return { value, line, column } => {
                let v = match value {
                    Some(e) => Some(e.shifted(offset)),
                    None => None,
                };
                Stmt::Return { value: v, line: line.saturating_add(offset), column }
            },
            Stmt::If { condition, then_body, elsif_branches, else_body, line, column } => {
                let c = condition.shifted(offset);
                let t = shifted_stmts(then_body, offset);
                let b = shifted_branches(elsif_branches, offset);
                let e = match else_body {
                    Some(body) => Some(shifted_stmts(body, offset)),
                    None => None,
                };
                Stmt::If { condition: c, then_body: t, elsif_branches: b, else_body: e, line: line.saturating_add(offset), column }
            },
            Stmt::While { condition, body, line, column } => {
                let c = condition.shifted(offset);
                let b = shifted_stmts(body, offset);
                Stmt::While { condition: c, body: b, line: line.saturating_add(offset), column }
            },
            Stmt::For { var_name, range_start, range_end, body, line, column } => {
                let a = range_start.shifted(offset);
                let z = range_end.shifted(offset);
                let b = shifted_stmts(body, offset);
                Stmt::For { var_name, range_start: a, range_end: z, body: b, line: line.saturating_add(offset), column }
            },
            Stmt::ExprStmt(e) => Stmt::ExprStmt(e.shifted(offset)),
            Stmt::Import { path, line, column } => Stmt::Import { path, line: line.saturating_add(offset), column },
            Stmt::ClassDef { name, parent, consts, fields, methods, line, column } => {
                let cs = shifted_stmts(consts, offset);
                let fs = shifted_fields(fields, offset);
                let ms = shifted_stmts(methods, offset);
                Stmt::ClassDef { name, parent, consts: cs, fields: fs, methods: ms, line: line.saturating_add(offset), column }
            },
            Stmt::FieldAssign { object, field, value, line, column } => {
                let o = object.shifted(offset);
                let v = value.shifted(offset);
                Stmt::FieldAssign { object: o, field, value: v, line: line.saturating_add(offset), column }
            },
        }
    }
}

/// Every statement of a program moved down by `offset`, in order.
pub fn shifted_stmts(v: Vec<Stmt>, offset: usize) -> (r: Vec<Stmt>)
    ensures
        stmts_view(r@) == shift_stmts(stmts_view(v@), offset),
    decreases stmts_size(v@),
{
    let mut v = v;
    if v.len() == 0 {
        return v;
    }
    let ghost s = v@;
    let last = v.pop().unwrap();
    proof {
        lemma_stmt_elem_size(s, s.len() - 1);
        assert(v@ =~= s.drop_last());
    }
    let mut front = shifted_stmts(v, offset);
    let st = last.shifted(offset);
    let ghost f = front@;
    front.push(st);
    assert(front@.drop_last() =~= f);
    assert(stmts_view(s).drop_last() =~= stmts_view(s.drop_last()));
    front
}

fn shifted_branches(v: Vec<(Expr, Vec<Stmt>)>, offset: usize) -> (r: Vec<(Expr, Vec<Stmt>)>)
    ensures
        branches_view(r@) == shift_branches(branches_view(v@), offset),
    decreases branches_size(v@),
{
    let mut v = v;
    if v.len() == 0 {
        return v;
    }
    let ghost s = v@;
    let last = v.pop().unwrap();
    proof {
        lemma_branch_elem_size(s, s.len() - 1);
        assert(v@ =~= s.drop_last());
    }
    let mut front = shifted_branches(v, offset);
    let (cond, body) = last;
    let c = cond.shifted(offset);
    let b = shifted_stmts(body, offset);
    let ghost f = front@;
    front.push((c, b));
    assert(front@.drop_last() =~= f);
    assert(branches_view(s).drop_last() =~= branches_view(s.drop_last()));
    front
}

} // verus!
