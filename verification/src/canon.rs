//! Reading a program written in a translated vocabulary: type names in
//! annotations, builtin names in calls and method names (`new` included) in
//! method calls are turned into their canonical spellings, so the checker
//! and the interpreter only ever meet canonical names. Everything else,
//! positions included, stays as written.

use vstd::prelude::*;
use crate::ast::{Expr, Stmt, TypeAnnotation, Param, FieldDecl};
use crate::syntax::{AnnM, ParamM, ExprM, StmtM, expr_view, exprs_view, stmt_view, stmts_view, branches_view,
    ann_view, opt_ann_view, param_view, field_view};
use crate::shift::{expr_positions, exprs_positions, stmt_positions, stmts_positions, branches_positions,
    params_positions, opt_ann_positions};
use crate::translations::{Vocabulary, VocabModel, lookup_or_self, english_model};
use crate::types::{canonical_alias, normalize_type_alias};
use crate::text::{chars_of, string_from_range, push_str};
use crate::typechecker::{is_pointer_annotation, pointee_annotation, expr_size, exprs_size, lemma_elem_size, stmt_size, stmts_size, branches_size,
    lemma_stmt_elem_size, lemma_branch_elem_size};

verus! {

/// The canonical spelling of a type name written in vocabulary `v`, the
/// short aliases expanded; in a pointer annotation `Ptr<inner>` the inner
/// name is read the same way.
pub open spec fn canon_type_name(v: VocabModel, name: Seq<char>) -> Seq<char>
    decreases name.len(),
{
    if is_pointer_annotation(name) {
        "Ptr<"@ + canon_type_name(v, pointee_annotation(name)) + ">"@
    } else {
        canonical_alias(lookup_or_self(v.types, name))
    }
}

/// A type annotation with its name in canonical spelling.
pub open spec fn canon_ann(a: AnnM, v: VocabModel) -> AnnM {
    AnnM { name: canon_type_name(v, a.name), ..a }
}

/// An optional type annotation in canonical spelling.
pub open spec fn canon_opt_ann(a: Option<AnnM>, v: VocabModel) -> Option<AnnM> {
    match a {
        Some(t) => Some(canon_ann(t, v)),
        None => None,
    }
}

/// A parameter or field declaration with its annotation in canonical spelling.
pub open spec fn canon_param(p: ParamM, v: VocabModel) -> ParamM {
    ParamM { type_ann: canon_ann(p.type_ann, v), ..p }
}

/// An expression with its builtin and method names in canonical spelling.
pub open spec fn canon_expr(e: ExprM, v: VocabModel) -> ExprM
    decreases e, 1nat,
{
    match e {
        ExprM::Binary(op, a, b, l, c) => ExprM::Binary(
            op,
            Box::new(canon_expr(*a, v)),
            Box::new(canon_expr(*b, v)),
            l,
            c,
        ),
        ExprM::Call(n, args, l, c) => ExprM::Call(lookup_or_self(v.builtins, n), canon_exprs(args, v), l, c),
        ExprM::Unary(op, a, l, c) => ExprM::Unary(op, Box::new(canon_expr(*a, v)), l, c),
        ExprM::ArrayLit(es, l, c) => ExprM::ArrayLit(canon_exprs(es, v), l, c),
        ExprM::Index(a, i, l, c) => ExprM::Index(
            Box::new(canon_expr(*a, v)),
            Box::new(canon_expr(*i, v)),
            l,
            c,
        ),
        ExprM::FieldAccess(o, f, l, c) => ExprM::FieldAccess(Box::new(canon_expr(*o, v)), f, l, c),
        ExprM::MethodCall(o, m, args, l, c) => ExprM::MethodCall(
            Box::new(canon_expr(*o, v)),
            lookup_or_self(v.methods, m),
            canon_exprs(args, v),
            l,
            c,
        ),
        _ => e,
    }
}

/// Each expression of a list in canonical spelling, in order.
pub open spec fn canon_exprs(s: Seq<ExprM>, v: VocabModel) -> Seq<ExprM>
    decreases s, 0nat,
{
    if s.len() == 0 {
        Seq::empty()
    } else {
        canon_exprs(s.drop_last(), v).push(canon_expr(s.last(), v))
    }
}

/// A statement with its type, builtin and method names in canonical spelling.
pub open spec fn canon_stmt(s: StmtM, v: VocabModel) -> StmtM
    decreases s, 2nat,
{
    match s {
        StmtM::VarDecl(n, t, x, l, c) => StmtM::VarDecl(n, canon_opt_ann(t, v), canon_expr(x, v), l, c),
        StmtM::ConstDecl(n, t, x, l, c) => StmtM::ConstDecl(n, canon_opt_ann(t, v), canon_expr(x, v), l, c),
        StmtM::FunctionDef(n, ps, rt, body, l, c) => StmtM::FunctionDef(
            n,
            ps.map_values(|p: ParamM| canon_param(p, v)),
            canon_opt_ann(rt, v),
            canon_stmts(body, v),
            l,
            c,
        ),
        StmtM::Return(x, l, c) => StmtM::Return(
            match x {
                Some(e) => Some(canon_expr(e, v)),
                None => None,
            },
            l,
            c,
        ),
        StmtM::If(cond, then_body, branches, else_body, l, c) => StmtM::If(
            canon_expr(cond, v),
            canon_stmts(then_body, v),
            canon_branches(branches, v),
            match else_body {
                Some(b) => Some(canon_stmts(b, v)),
                None => None,
            },
            l,
            c,
        ),
        StmtM::While(cond, body, l, c) => StmtM::While(canon_expr(cond, v), canon_stmts(body, v), l, c),
        StmtM::For(n, a, b, body, l, c) => StmtM::For(
            n,
            canon_expr(a, v),
            canon_expr(b, v),
            canon_stmts(body, v),
            l,
            c,
        ),
        StmtM::ExprStmt(e) => StmtM::ExprStmt(canon_expr(e, v)),
        StmtM::Import(..) => s,
        StmtM::ClassDef(n, parent, consts, fields, methods, l, c) => StmtM::ClassDef(
            n,
            parent,
            canon_stmts(consts, v),
            fields.map_values(|f: ParamM| canon_param(f, v)),
            canon_stmts(methods, v),
            l,
            c,
        ),
        StmtM::FieldAssign(o, f, x, l, c) => StmtM::FieldAssign(canon_expr(o, v), f, canon_expr(x, v), l, c),
    }
}

/// Each statement of a list in canonical spelling, in order.
pub open spec fn canon_stmts(s: Seq<StmtM>, v: VocabModel) -> Seq<StmtM>
    decreases s, 1nat,
{
    if s.len() == 0 {
        Seq::empty()
    } else {
        canon_stmts(s.drop_last(), v).push(canon_stmt(s.last(), v))
    }
}

/// Each `elsif` branch of a list in canonical spelling, in order.
pub open spec fn canon_branches(b: Seq<(ExprM, Seq<StmtM>)>, v: VocabModel) -> Seq<(ExprM, Seq<StmtM>)>
    decreases b, 1nat,
{
    if b.len() == 0 {
        Seq::empty()
    } else {
        canon_branches(b.drop_last(), v).push((canon_expr(b.last().0, v), canon_stmts(b.last().1, v)))
    }
}


/// A name a program spells, by what it names: 0 a function called by name
/// (builtins among them), 1 a method, 2 a type in an annotation.
pub type NameUse = (nat, Seq<char>);

/// Every translatable name in an expression, left to right.
pub open spec fn expr_names(e: ExprM) -> Seq<NameUse>
    decreases e, 1nat,
{
    match e {
        ExprM::Binary(_, a, b, _, _) => expr_names(*a) + expr_names(*b),
        ExprM::Call(n, args, _, _) => seq![(0nat, n)] + exprs_names(args),
        ExprM::Unary(_, a, _, _) => expr_names(*a),
        ExprM::ArrayLit(es, _, _) => exprs_names(es),
        ExprM::Index(a, i, _, _) => expr_names(*a) + expr_names(*i),
        ExprM::FieldAccess(o, _, _, _) => expr_names(*o),
        ExprM::MethodCall(o, m, args, _, _) => expr_names(*o) + seq![(1nat, m)] + exprs_names(args),
        _ => Seq::empty(),
    }
}

/// Every translatable name in a list of expressions, in order.
pub open spec fn exprs_names(s: Seq<ExprM>) -> Seq<NameUse>
    decreases s, 0nat,
{
    if s.len() == 0 {
        Seq::empty()
    } else {
        exprs_names(s.drop_last()) + expr_names(s.last())
    }
}

/// The type name of an optional annotation, if there is one.
pub open spec fn opt_ann_names(a: Option<AnnM>) -> Seq<NameUse> {
    match a {
        Some(t) => seq![(2nat, t.name)],
        None => Seq::empty(),
    }
}

/// The type names of a list of parameters or fields, in order.
pub open spec fn params_names(ps: Seq<ParamM>) -> Seq<NameUse>
    decreases ps.len(),
{
    if ps.len() == 0 {
        Seq::empty()
    } else {
        params_names(ps.drop_last()) + seq![(2nat, ps.last().type_ann.name)]
    }
}

/// Every translatable name in a statement, at every depth, in order.
pub open spec fn stmt_names(s: StmtM) -> Seq<NameUse>
    decreases s, 2nat,
{
    match s {
        StmtM::VarDecl(_, t, x, _, _) => opt_ann_names(t) + expr_names(x),
        StmtM::ConstDecl(_, t, x, _, _) => opt_ann_names(t) + expr_names(x),
        StmtM::FunctionDef(_, ps, rt, body, _, _) => params_names(ps) + opt_ann_names(rt) + stmts_names(body),
        StmtM::Return(x, _, _) => match x {
            Some(e) => expr_names(e),
            None => Seq::empty(),
        },
        StmtM::If(cond, then_body, branches, else_body, _, _) => expr_names(cond) + stmts_names(then_body)
            + branches_names(branches) + match else_body {
            Some(b) => stmts_names(b),
            None => Seq::empty(),
        },
        StmtM::While(cond, body, _, _) => expr_names(cond) + stmts_names(body),
        StmtM::For(_, a, b, body, _, _) => expr_names(a) + expr_names(b) + stmts_names(body),
        StmtM::ExprStmt(e) => expr_names(e),
        StmtM::Import(..) => Seq::empty(),
        StmtM::ClassDef(_, _, consts, fields, methods, _, _) => stmts_names(consts) + params_names(fields)
            + stmts_names(methods),
        StmtM::FieldAssign(o, _, x, _, _) => expr_names(o) + expr_names(x),
    }
}

/// Every translatable name in a list of statements, in order.
pub open spec fn stmts_names(s: Seq<StmtM>) -> Seq<NameUse>
    decreases s, 1nat,
{
    if s.len() == 0 {
        Seq::empty()
    } else {
        stmts_names(s.drop_last()) + stmt_names(s.last())
    }
}

/// Every translatable name in a list of `elsif` branches, in order.
pub open spec fn branches_names(b: Seq<(ExprM, Seq<StmtM>)>) -> Seq<NameUse>
    decreases b, 1nat,
{
    if b.len() == 0 {
        Seq::empty()
    } else {
        branches_names(b.drop_last()) + expr_names(b.last().0) + stmts_names(b.last().1)
    }
}

/// One name read through `v`: a called name through the builtin table, a
/// method through the method table, a type name as `canon_type_name` reads it.
pub open spec fn read_name(v: VocabModel, u: NameUse) -> NameUse {
    if u.0 == 0 {
        (u.0, lookup_or_self(v.builtins, u.1))
    } else if u.0 == 1 {
        (u.0, lookup_or_self(v.methods, u.1))
    } else {
        (u.0, canon_type_name(v, u.1))
    }
}

/// Each name of a list read through `v`.
pub open spec fn read_names(ns: Seq<NameUse>, v: VocabModel) -> Seq<NameUse> {
    ns.map_values(|u: NameUse| read_name(v, u))
}

proof fn lemma_read_concat(a: Seq<NameUse>, b: Seq<NameUse>, v: VocabModel)
    ensures
        read_names(a + b, v) == read_names(a, v) + read_names(b, v),
{
    assert(read_names(a + b, v) =~= read_names(a, v) + read_names(b, v));
}

proof fn lemma_params_read(ps: Seq<ParamM>, v: VocabModel)
    ensures
        params_names(ps.map_values(|p: ParamM| canon_param(p, v))) == read_names(params_names(ps), v),
    decreases ps.len(),
{
    if ps.len() > 0 {
        let q = ps.map_values(|p: ParamM| canon_param(p, v));
        assert(q.drop_last() =~= ps.drop_last().map_values(|p: ParamM| canon_param(p, v)));
        lemma_params_read(ps.drop_last(), v);
        let last = seq![(2nat, ps.last().type_ann.name)];
        lemma_read_concat(params_names(ps.drop_last()), last, v);
        assert(read_names(last, v) =~= seq![(2nat, q.last().type_ann.name)]);
    } else {
        assert(read_names(Seq::<NameUse>::empty(), v) =~= Seq::<NameUse>::empty());
    }
}

proof fn lemma_opt_ann_read(a: Option<AnnM>, v: VocabModel)
    ensures
        opt_ann_names(canon_opt_ann(a, v)) == read_names(opt_ann_names(a), v),
{
    assert(opt_ann_names(canon_opt_ann(a, v)) =~= read_names(opt_ann_names(a), v));
}

/// Reading an expression through `v` reads every called name, method name
/// and type name in it, at every depth, and keeps their order.
pub proof fn lemma_canon_expr_reads_every_name(e: ExprM, v: VocabModel)
    ensures
        expr_names(canon_expr(e, v)) == read_names(expr_names(e), v),
    decreases e, 1nat,
{
    match e {
        ExprM::Binary(_, a, b, _, _) => {
            lemma_canon_expr_reads_every_name(*a, v);
            lemma_canon_expr_reads_every_name(*b, v);
            lemma_read_concat(expr_names(*a), expr_names(*b), v);
        },
        ExprM::Call(n, args, _, _) => {
            lemma_canon_exprs_reads_every_name(args, v);
            lemma_read_concat(seq![(0nat, n)], exprs_names(args), v);
            assert(read_names(seq![(0nat, n)], v) =~= seq![(0nat, lookup_or_self(v.builtins, n))]);
        },
        ExprM::Unary(_, a, _, _) => {
            lemma_canon_expr_reads_every_name(*a, v);
        },
        ExprM::ArrayLit(es, _, _) => {
            lemma_canon_exprs_reads_every_name(es, v);
        },
        ExprM::Index(a, i, _, _) => {
            lemma_canon_expr_reads_every_name(*a, v);
            lemma_canon_expr_reads_every_name(*i, v);
            lemma_read_concat(expr_names(*a), expr_names(*i), v);
        },
        ExprM::FieldAccess(o, _, _, _) => {
            lemma_canon_expr_reads_every_name(*o, v);
        },
        ExprM::MethodCall(o, m, args, _, _) => {
            lemma_canon_expr_reads_every_name(*o, v);
            lemma_canon_exprs_reads_every_name(args, v);
            assert(read_names(expr_names(*o) + seq![(1nat, m)] + exprs_names(args), v) =~= read_names(expr_names(*o), v)
                + seq![(1nat, lookup_or_self(v.methods, m))] + read_names(exprs_names(args), v));
        },
        _ => {
            assert(read_names(Seq::<NameUse>::empty(), v) =~= Seq::<NameUse>::empty());
        },
    }
}

/// Reading a list of expressions reads every name in it.
pub proof fn lemma_canon_exprs_reads_every_name(s: Seq<ExprM>, v: VocabModel)
    ensures
        exprs_names(canon_exprs(s, v)) == read_names(exprs_names(s), v),
    decreases s, 0nat,
{
    if s.len() > 0 {
        lemma_canon_exprs_reads_every_name(s.drop_last(), v);
        lemma_canon_expr_reads_every_name(s.last(), v);
        let t = canon_exprs(s, v);
        assert(t.drop_last() =~= canon_exprs(s.drop_last(), v));
        lemma_read_concat(exprs_names(s.drop_last()), expr_names(s.last()), v);
    } else {
        assert(read_names(Seq::<NameUse>::empty(), v) =~= Seq::<NameUse>::empty());
    }
}

/// Reading a statement through `v` reads every called name, method name
/// and type name in it, at every depth (loop and branch bodies, functions
/// and classes included), and keeps their order: no spelling is left
/// unread anywhere in the tree.
pub proof fn lemma_canon_stmt_reads_every_name(s: StmtM, v: VocabModel)
    ensures
        stmt_names(canon_stmt(s, v)) == read_names(stmt_names(s), v),
    decreases s, 2nat,
{
    match s {
        StmtM::VarDecl(_, t, x, _, _) => {
            lemma_opt_ann_read(t, v);
            lemma_canon_expr_reads_every_name(x, v);
            lemma_read_concat(opt_ann_names(t), expr_names(x), v);
        },
        StmtM::ConstDecl(_, t, x, _, _) => {
            lemma_opt_ann_read(t, v);
            lemma_canon_expr_reads_every_name(x, v);
            lemma_read_concat(opt_ann_names(t), expr_names(x), v);
        },
        StmtM::FunctionDef(_, ps, rt, body, _, _) => {
            lemma_params_read(ps, v);
            lemma_opt_ann_read(rt, v);
            lemma_canon_stmts_reads_every_name(body, v);
            assert(read_names(params_names(ps) + opt_ann_names(rt) + stmts_names(body), v) =~= read_names(params_names(ps), v)
                + read_names(opt_ann_names(rt), v) + read_names(stmts_names(body), v));
        },
        StmtM::Return(x, _, _) => {
            match x {
                Some(e) => {
                    lemma_canon_expr_reads_every_name(e, v);
                },
                None => {
                    assert(read_names(Seq::<NameUse>::empty(), v) =~= Seq::<NameUse>::empty());
                },
            }
        },
        StmtM::If(cond, then_body, branches, else_body, _, _) => {
            lemma_canon_expr_reads_every_name(cond, v);
            lemma_canon_stmts_reads_every_name(then_body, v);
            lemma_canon_branches_reads_every_name(branches, v);
            let e_ns = match else_body {
                Some(b) => stmts_names(b),
                None => Seq::<NameUse>::empty(),
            };
            match else_body {
                Some(b) => {
                    lemma_canon_stmts_reads_every_name(b, v);
                },
                None => {
                    assert(read_names(e_ns, v) =~= Seq::<NameUse>::empty());
                },
            }
            assert(read_names(expr_names(cond) + stmts_names(then_body) + branches_names(branches) + e_ns, v) =~= read_names(
                expr_names(cond), v) + read_names(stmts_names(then_body), v) + read_names(branches_names(branches), v)
                + read_names(e_ns, v));
        },
        StmtM::While(cond, body, _, _) => {
            lemma_canon_expr_reads_every_name(cond, v);
            lemma_canon_stmts_reads_every_name(body, v);
            lemma_read_concat(expr_names(cond), stmts_names(body), v);
        },
        StmtM::For(_, a, b, body, _, _) => {
            lemma_canon_expr_reads_every_name(a, v);
            lemma_canon_expr_reads_every_name(b, v);
            lemma_canon_stmts_reads_every_name(body, v);
            assert(read_names(expr_names(a) + expr_names(b) + stmts_names(body), v) =~= read_names(expr_names(a), v)
                + read_names(expr_names(b), v) + read_names(stmts_names(body), v));
        },
        StmtM::ExprStmt(e) => {
            lemma_canon_expr_reads_every_name(e, v);
        },
        StmtM::Import(..) => {
            assert(read_names(Seq::<NameUse>::empty(), v) =~= Seq::<NameUse>::empty());
        },
        StmtM::ClassDef(_, _, consts, fields, methods, _, _) => {
            lemma_canon_stmts_reads_every_name(consts, v);
            lemma_params_read(fields, v);
            lemma_canon_stmts_reads_every_name(methods, v);
            assert(read_names(stmts_names(consts) + params_names(fields) + stmts_names(methods), v) =~= read_names(
                stmts_names(consts), v) + read_names(params_names(fields), v) + read_names(stmts_names(methods), v));
        },
        StmtM::FieldAssign(o, _, x, _, _) => {
            lemma_canon_expr_reads_every_name(o, v);
            lemma_canon_expr_reads_every_name(x, v);
            lemma_read_concat(expr_names(o), expr_names(x), v);
        },
    }
}

/// Reading a list of statements reads every name in it, at every depth.
pub proof fn lemma_canon_stmts_reads_every_name(s: Seq<StmtM>, v: VocabModel)
    ensures
        stmts_names(canon_stmts(s, v)) == read_names(stmts_names(s), v),
    decreases s, 1nat,
{
    if s.len() > 0 {
        lemma_canon_stmts_reads_every_name(s.drop_last(), v);
        lemma_canon_stmt_reads_every_name(s.last(), v);
        let t = canon_stmts(s, v);
        assert(t.drop_last() =~= canon_stmts(s.drop_last(), v));
        lemma_read_concat(stmts_names(s.drop_last()), stmt_names(s.last()), v);
    } else {
        assert(read_names(Seq::<NameUse>::empty(), v) =~= Seq::<NameUse>::empty());
    }
}

/// Reading a list of `elsif` branches reads every name in it.
pub proof fn lemma_canon_branches_reads_every_name(b: Seq<(ExprM, Seq<StmtM>)>, v: VocabModel)
    ensures
        branches_names(canon_branches(b, v)) == read_names(branches_names(b), v),
    decreases b, 1nat,
{
    if b.len() > 0 {
        lemma_canon_branches_reads_every_name(b.drop_last(), v);
        lemma_canon_expr_reads_every_name(b.last().0, v);
        lemma_canon_stmts_reads_every_name(b.last().1, v);
        let t = canon_branches(b, v);
        assert(t.drop_last() =~= canon_branches(b.drop_last(), v));
        assert(read_names(branches_names(b.drop_last()) + expr_names(b.last().0) + stmts_names(b.last().1), v) =~= read_names(
            branches_names(b.drop_last()), v) + read_names(expr_names(b.last().0), v) + read_names(stmts_names(b.last().1), v));
    } else {
        assert(read_names(Seq::<NameUse>::empty(), v) =~= Seq::<NameUse>::empty());
    }
}

proof fn lemma_params_keep_positions(ps: Seq<ParamM>, v: VocabModel)
    ensures
        params_positions(ps.map_values(|p: ParamM| canon_param(p, v))) == params_positions(ps),
    decreases ps.len(),
{
    if ps.len() > 0 {
        let q = ps.map_values(|p: ParamM| canon_param(p, v));
        assert(q.drop_last() =~= ps.drop_last().map_values(|p: ParamM| canon_param(p, v)));
        lemma_params_keep_positions(ps.drop_last(), v);
    }
}

/// Reading an expression through a vocabulary keeps every position in it.
pub proof fn lemma_canon_expr_keeps_positions(e: ExprM, v: VocabModel)
    ensures
        expr_positions(canon_expr(e, v)) == expr_positions(e),
    decreases e, 1nat,
{
    match e {
        ExprM::Binary(_, a, b, _, _) => {
            lemma_canon_expr_keeps_positions(*a, v);
            lemma_canon_expr_keeps_positions(*b, v);
        },
        ExprM::Call(_, args, _, _) => {
            lemma_canon_exprs_keeps_positions(args, v);
        },
        ExprM::Unary(_, a, _, _) => {
            lemma_canon_expr_keeps_positions(*a, v);
        },
        ExprM::ArrayLit(es, _, _) => {
            lemma_canon_exprs_keeps_positions(es, v);
        },
        ExprM::Index(a, i, _, _) => {
            lemma_canon_expr_keeps_positions(*a, v);
            lemma_canon_expr_keeps_positions(*i, v);
        },
        ExprM::FieldAccess(o, _, _, _) => {
            lemma_canon_expr_keeps_positions(*o, v);
        },
        ExprM::MethodCall(o, _, args, _, _) => {
            lemma_canon_expr_keeps_positions(*o, v);
            lemma_canon_exprs_keeps_positions(args, v);
        },
        _ => {},
    }
}

/// Reading a list of expressions keeps every position in it.
pub proof fn lemma_canon_exprs_keeps_positions(s: Seq<ExprM>, v: VocabModel)
    ensures
        exprs_positions(canon_exprs(s, v)) == exprs_positions(s),
    decreases s, 0nat,
{
    if s.len() > 0 {
        lemma_canon_exprs_keeps_positions(s.drop_last(), v);
        lemma_canon_expr_keeps_positions(s.last(), v);
        let t = canon_exprs(s, v);
        assert(t.drop_last() =~= canon_exprs(s.drop_last(), v));
    }
}

/// Reading a statement through a vocabulary keeps every position in it, at
/// every depth: diagnostics point where they would in the written program.
pub proof fn lemma_canon_stmt_keeps_positions(s: StmtM, v: VocabModel)
    ensures
        stmt_positions(canon_stmt(s, v)) == stmt_positions(s),
    decreases s, 2nat,
{
    match s {
        StmtM::VarDecl(_, t, x, _, _) => {
            lemma_canon_expr_keeps_positions(x, v);
            assert(opt_ann_positions(canon_opt_ann(t, v)) =~= opt_ann_positions(t));
        },
        StmtM::ConstDecl(_, t, x, _, _) => {
            lemma_canon_expr_keeps_positions(x, v);
            assert(opt_ann_positions(canon_opt_ann(t, v)) =~= opt_ann_positions(t));
        },
        StmtM::FunctionDef(_, ps, rt, body, _, _) => {
            lemma_params_keep_positions(ps, v);
            lemma_canon_stmts_keeps_positions(body, v);
            assert(opt_ann_positions(canon_opt_ann(rt, v)) =~= opt_ann_positions(rt));
        },
        StmtM::Return(x, _, _) => {
            match x {
                Some(e) => {
                    lemma_canon_expr_keeps_positions(e, v);
                },
                None => {},
            }
        },
        StmtM::If(cond, then_body, branches, else_body, _, _) => {
            lemma_canon_expr_keeps_positions(cond, v);
            lemma_canon_stmts_keeps_positions(then_body, v);
            lemma_canon_branches_keeps_positions(branches, v);
            match else_body {
                Some(b) => {
                    lemma_canon_stmts_keeps_positions(b, v);
                },
                None => {},
            }
        },
        StmtM::While(cond, body, _, _) => {
            lemma_canon_expr_keeps_positions(cond, v);
            lemma_canon_stmts_keeps_positions(body, v);
        },
        StmtM::For(_, a, b, body, _, _) => {
            lemma_canon_expr_keeps_positions(a, v);
            lemma_canon_expr_keeps_positions(b, v);
            lemma_canon_stmts_keeps_positions(body, v);
        },
        StmtM::ExprStmt(e) => {
            lemma_canon_expr_keeps_positions(e, v);
        },
        StmtM::Import(..) => {},
        StmtM::ClassDef(_, _, consts, fields, methods, _, _) => {
            lemma_canon_stmts_keeps_positions(consts, v);
            lemma_params_keep_positions(fields, v);
            lemma_canon_stmts_keeps_positions(methods, v);
        },
        StmtM::FieldAssign(o, _, x, _, _) => {
            lemma_canon_expr_keeps_positions(o, v);
            lemma_canon_expr_keeps_positions(x, v);
        },
    }
}

/// Reading a list of statements keeps every position in it.
pub proof fn lemma_canon_stmts_keeps_positions(s: Seq<StmtM>, v: VocabModel)
    ensures
        stmts_positions(canon_stmts(s, v)) == stmts_positions(s),
    decreases s, 1nat,
{
    if s.len() > 0 {
        lemma_canon_stmts_keeps_positions(s.drop_last(), v);
        lemma_canon_stmt_keeps_positions(s.last(), v);
        let t = canon_stmts(s, v);
        assert(t.drop_last() =~= canon_stmts(s.drop_last(), v));
    }
}

/// Reading a list of `elsif` branches keeps every position in it.
pub proof fn lemma_canon_branches_keeps_positions(b: Seq<(ExprM, Seq<StmtM>)>, v: VocabModel)
    ensures
        branches_positions(canon_branches(b, v)) == branches_positions(b),
    decreases b, 1nat,
{
    if b.len() > 0 {
        lemma_canon_branches_keeps_positions(b.drop_last(), v);
        lemma_canon_expr_keeps_positions(b.last().0, v);
        lemma_canon_stmts_keeps_positions(b.last().1, v);
        let t = canon_branches(b, v);
        assert(t.drop_last() =~= canon_branches(b.drop_last(), v));
    }
}

/// A type name as the parser leaves it: short aliases already expanded,
/// at every level of `Ptr<..>`.
pub open spec fn alias_free_type_name(name: Seq<char>) -> bool
    decreases name.len(),
{
    if is_pointer_annotation(name) {
        alias_free_type_name(pointee_annotation(name))
    } else {
        canonical_alias(name) == name
    }
}

/// Reading through the English vocabulary keeps every builtin and method
/// name as written, only expands the short type aliases of a plain type
/// name, and leaves a type name as the parser produces it unchanged.
pub proof fn lemma_english_reading_keeps_names(name: Seq<char>)
    ensures
        lookup_or_self(english_model().builtins, name) == name,
        lookup_or_self(english_model().methods, name) == name,
        !is_pointer_annotation(name) ==> canon_type_name(english_model(), name) == canonical_alias(name),
        alias_free_type_name(name) ==> canon_type_name(english_model(), name) == name,
    decreases name.len(),
{
    if is_pointer_annotation(name) {
        lemma_english_reading_keeps_names(pointee_annotation(name));
        reveal_strlit("Ptr<");
        reveal_strlit(">");
        assert(name =~= "Ptr<"@ + pointee_annotation(name) + ">"@) by {
            assert(name.take(4) == "Ptr<"@);
            assert forall|i: int| 0 <= i < 4 implies name[i] == "Ptr<"@[i] by {
                assert(name.take(4)[i] == name[i]);
            }
        }
    }
}

/// A type name read through `vocab`, pointer annotations inside out.
fn canonical_type_name(name: &str, vocab: &Vocabulary) -> (r: String)
    ensures
        r@ == canon_type_name(vocab.model(), name@),
    decreases name@.len(),
{
    let cs = chars_of(name);
    let n = cs.len();
    proof {
        reveal_strlit("Ptr<");
        reveal_strlit(">");
    }
    if n >= 5 && cs[0] == 'P' && cs[1] == 't' && cs[2] == 'r' && cs[3] == '<' && cs[n - 1] == '>' {
        assert(name@.take(4) =~= "Ptr<"@);
        let inner = string_from_range(&cs, 4, n - 1);
        let c = canonical_type_name(inner.as_str(), vocab);
        let mut r = String::new();
        push_str(&mut r, "Ptr<");
        push_str(&mut r, c.as_str());
        push_str(&mut r, ">");
        assert(r@ =~= "Ptr<"@ + c@ + ">"@);
        return r;
    }
    proof {
        if is_pointer_annotation(name@) {
            assert(name@.take(4)[0] == 'P');
            assert(name@.take(4)[1] == 't');
            assert(name@.take(4)[2] == 'r');
            assert(name@.take(4)[3] == '<');
        }
    }
    let localized = vocab.canonical_type(name);
    normalize_type_alias(localized.as_str()).to_owned()
}

fn canonical_ann(a: TypeAnnotation, vocab: &Vocabulary) -> (r: TypeAnnotation)
    ensures
        ann_view(r) == canon_ann(ann_view(a), vocab.model()),
{
    let name = canonical_type_name(a.name.as_str(), vocab);
    TypeAnnotation { name, line: a.line, column: a.column }
}

fn canonical_opt_ann(a: Option<TypeAnnotation>, vocab: &Vocabulary) -> (r: Option<TypeAnnotation>)
    ensures
        opt_ann_view(r) == canon_opt_ann(opt_ann_view(a), vocab.model()),
{
    match a {
        Some(t) => Some(canonical_ann(t, vocab)),
        None => None,
    }
}

fn canonical_params(v: Vec<Param>, vocab: &Vocabulary) -> (r: Vec<Param>)
    ensures
        r@.map_values(|p: Param| param_view(p)) == v@.map_values(|p: Param| param_view(p)).map_values(
            |p: ParamM| canon_param(p, vocab.model()),
        ),
    decreases v@.len(),
{
    let mut v = v;
    if v.len() == 0 {
        assert(v@.map_values(|p: Param| param_view(p)).map_values(|p: ParamM| canon_param(p, vocab.model()))
            =~= Seq::empty());
        return v;
    }
    let ghost s = v@;
    let last = v.pop().unwrap();
    assert(v@ =~= s.drop_last());
    let mut front = canonical_params(v, vocab);
    let ghost f = front@;
    let p = Param {
        name: last.name,
        type_ann: canonical_ann(last.type_ann, vocab),
        line: last.line,
        column: last.column,
    };
    front.push(p);
    proof {
        assert(f.map_values(|p: Param| param_view(p)).len() == f.len());
        assert(s.drop_last().map_values(|p: Param| param_view(p)).map_values(|p: ParamM| canon_param(p, vocab.model())).len()
            == s.len() - 1);
        assert(f.len() == s.len() - 1);
        let lhs = front@.map_values(|p: Param| param_view(p));
        let rhs = s.map_values(|p: Param| param_view(p)).map_values(|p: ParamM| canon_param(p, vocab.model()));
        assert forall|i: int| 0 <= i < lhs.len() implies lhs[i] == rhs[i] by {
            if i < s.len() - 1 {
                assert(front@[i] == f[i]);
                assert(s.drop_last()[i] == s[i]);
                assert(f.map_values(|p: Param| param_view(p))[i] == s.drop_last().map_values(|p: Param| param_view(p)).map_values(
                    |p: ParamM| canon_param(p, vocab.model()),
                )[i]);
            }
        }
        assert(lhs =~= rhs);
    }
    front
}

fn canonical_fields(v: Vec<FieldDecl>, vocab: &Vocabulary) -> (r: Vec<FieldDecl>)
    ensures
        r@.map_values(|f: FieldDecl| field_view(f)) == v@.map_values(|f: FieldDecl| field_view(f)).map_values(
            |f: ParamM| canon_param(f, vocab.model()),
        ),
    decreases v@.len(),
{
    let mut v = v;
    if v.len() == 0 {
        assert(v@.map_values(|f: FieldDecl| field_view(f)).map_values(|f: ParamM| canon_param(f, vocab.model()))
            =~= Seq::empty());
        return v;
    }
    let ghost s = v@;
    let last = v.pop().unwrap();
    assert(v@ =~= s.drop_last());
    let mut front = canonical_fields(v, vocab);
    let ghost f = front@;
    let d = FieldDecl {
        name: last.name,
        type_ann: canonical_ann(last.type_ann, vocab),
        line: last.line,
        column: last.column,
    };
    front.push(d);
    proof {
        assert(f.map_values(|f: FieldDecl| field_view(f)).len() == f.len());
        assert(s.drop_last().map_values(|f: FieldDecl| field_view(f)).map_values(|f: ParamM| canon_param(f, vocab.model())).len()
            == s.len() - 1);
        assert(f.len() == s.len() - 1);
        let lhs = front@.map_values(|f: FieldDecl| field_view(f));
        let rhs = s.map_values(|f: FieldDecl| field_view(f)).map_values(|f: ParamM| canon_param(f, vocab.model()));
        assert forall|i: int| 0 <= i < lhs.len() implies lhs[i] == rhs[i] by {
            if i < s.len() - 1 {
                assert(front@[i] == f[i]);
                assert(s.drop_last()[i] == s[i]);
                assert(f.map_values(|f: FieldDecl| field_view(f))[i] == s.drop_last().map_values(|f: FieldDecl| field_view(f)).map_values(
                    |f: ParamM| canon_param(f, vocab.model()),
                )[i]);
            }
        }
        assert(lhs =~= rhs);
    }
    front
}

impl Expr {
    /// This expression with builtin names in calls and method names in
    /// method calls read through `vocab` into their canonical spellings.
    pub fn canonical(self, vocab: &Vocabulary) -> (r: Expr)
        ensures
            expr_view(r) == canon_expr(expr_view(self), vocab.model()),
        decreases expr_size(self),
    {
        match self {
            Expr::Binary { op, left, right, line, column } => {
                let l = (*left).canonical(vocab);
                let r = (*right).canonical(vocab);
                Expr::Binary { op, left: Box::new(l), right: Box::new(r), line, column }
            },
            Expr::Call { callee, args, line, column } => {
                let name = vocab.canonical_builtin(callee.as_str());
                let a = canonical_exprs(args, vocab);
                Expr::Call { callee: name, args: a, line, column }
            },
            Expr::Unary { op, expr, line, column } => {
                let e = (*expr).canonical(vocab);
                Expr::Unary { op, expr: Box::new(e), line, column }
            },
            Expr::ArrayLit { elements, line, column } => {
                let es = canonical_exprs(elements, vocab);
                Expr::ArrayLit { elements: es, line, column }
            },
            Expr::Index { array, index, line, column } => {
                let a = (*array).canonical(vocab);
                let i = (*index).canonical(vocab);
                Expr::Index { array: Box::new(a), index: Box::new(i), line, column }
            },
            Expr::FieldAccess { object, field, line, column } => {
                let o = (*object).canonical(vocab);
                Expr::FieldAccess { object: Box::new(o), field, line, column }
            },
            Expr::MethodCall { object, method, args, line, column } => {
                let o = (*object).canonical(vocab);
                let name = vocab.canonical_method(method.as_str());
                let a = canonical_exprs(args, vocab);
                Expr::MethodCall { object: Box::new(o), method: name, args: a, line, column }
            },
            other => other,
        }
    }
}

fn canonical_exprs(v: Vec<Expr>, vocab: &Vocabulary) -> (r: Vec<Expr>)
    ensures
        exprs_view(r@) == canon_exprs(exprs_view(v@), vocab.model()),
    decreases exprs_size(v@),
{
    let mut v = v;
    if v.len() == 0 {
        return v;
    }
    let ghost s = v@;
    let last = v.pop().unwrap();
    proof {
        lemma_elem_size(s, s.len() - 1);
        assert(v@ =~= s.drop_last());
    }
    let mut front = canonical_exprs(v, vocab);
    let e = last.canonical(vocab);
    let ghost f = front@;
    front.push(e);
    assert(front@.drop_last() =~= f);
    assert(exprs_view(s).drop_last() =~= exprs_view(s.drop_last()));
    front
}

impl Stmt {
    /// This statement with its type, builtin and method names read through
    /// `vocab` into their canonical spellings.
    pub fn canonical(self, vocab: &Vocabulary) -> (r: Stmt)
        ensures
            stmt_view(r) == canon_stmt(stmt_view(self), vocab.model()),
        decreases stmt_size(self),
    {
        match self {
            Stmt::VarDecl { name, type_ann, value, line, column } => {
                let t = canonical_opt_ann(type_ann, vocab);
                let x = value.canonical(vocab);
                Stmt::VarDecl { name, type_ann: t, value: x, line, column }
            },
            Stmt::ConstDecl { name, type_ann, value, line, column } => {
                let t = canonical_opt_ann(type_ann, vocab);
                let x = value.canonical(vocab);
                Stmt::ConstDecl { name, type_ann: t, value: x, line, column }
            },
            Stmt::FunctionDef { name, params, return_type, body, line, column } => {
                let ps = canonical_params(params, vocab);
                let rt = canonical_opt_ann(return_type, vocab);
                let b = canonical_stmts(body, vocab);
                Stmt::FunctionDef { name, params: ps, return_type: rt, body: b, line, column }
            },
            Stmt::Return { value, line, column } => {
                let x = match value {
                    Some(e) => Some(e.canonical(vocab)),
                    None => None,
                };
                Stmt::Return { value: x, line, column }
            },
            Stmt::If { condition, then_body, elsif_branches, else_body, line, column } => {
                let c = condition.canonical(vocab);
                let t = canonical_stmts(then_body, vocab);
                let b = canonical_branches(elsif_branches, vocab);
                let e = match else_body {
                    Some(body) => Some(canonical_stmts(body, vocab)),
                    None => None,
                };
                Stmt::If { condition: c, then_body: t, elsif_branches: b, else_body: e, line, column }
            },
            Stmt::While { condition, body, line, column } => {
                let c = condition.canonical(vocab);
                let b = canonical_stmts(body, vocab);
                Stmt::While { condition: c, body: b, line, column }
            },
            Stmt::For { var_name, range_start, range_end, body, line, column } => {
                let a = range_start.canonical(vocab);
                let z = range_end.canonical(vocab);
                let b = canonical_stmts(body, vocab);
                Stmt::For { var_name, range_start: a, range_end: z, body: b, line, column }
            },
            Stmt::ExprStmt(e) => Stmt::ExprStmt(e.canonical(vocab)),
            Stmt::Import { path, line, column } => Stmt::Import { path, line, column },
            Stmt::ClassDef { name, parent, consts, fields, methods, line, column } => {
                let cs = canonical_stmts(consts, vocab);
                let fs = canonical_fields(fields, vocab);
                let ms = canonical_stmts(methods, vocab);
                Stmt::ClassDef { name, parent, consts: cs, fields: fs, methods: ms, line, column }
            },
            Stmt::FieldAssign { object, field, value, line, column } => {
                let o = object.canonical(vocab);
                let x = value.canonical(vocab);
                Stmt::FieldAssign { object: o, field, value: x, line, column }
            },
        }
    }
}

/// Every statement of a program read through `vocab` into canonical
/// spellings, in order.
pub fn canonical_stmts(v: Vec<Stmt>, vocab: &Vocabulary) -> (r: Vec<Stmt>)
    ensures
        stmts_view(r@) == canon_stmts(stmts_view(v@), vocab.model()),
    decreases stmts_size(v@),
{
    let mut v = v;
    if v.len() == 0 {
        return v;
    }
    let ghost s = v@;
    let last = v.pop().unwrap();
    proof {
        lemma_stmt_elem_size(s, s.len() - 1);
        assert(v@ =~= s.drop_last());
    }
    let mut front = canonical_stmts(v, vocab);
    let st = last.canonical(vocab);
    let ghost f = front@;
    front.push(st);
    assert(front@.drop_last() =~= f);
    assert(stmts_view(s).drop_last() =~= stmts_view(s.drop_last()));
    front
}

fn canonical_branches(v: Vec<(Expr, Vec<Stmt>)>, vocab: &Vocabulary) -> (r: Vec<(Expr, Vec<Stmt>)>)
    ensures
        branches_view(r@) == canon_branches(branches_view(v@), vocab.model()),
    decreases branches_size(v@),
{
    let mut v = v;
    if v.len() == 0 {
        return v;
    }
    let ghost s = v@;
    let last = v.pop().unwrap();
    proof {
        lemma_branch_elem_size(s, s.len() - 1);
        assert(v@ =~= s.drop_last());
    }
    let mut front = canonical_branches(v, vocab);
    let (cond, body) = last;
    let c = cond.canonical(vocab);
    let b = canonical_stmts(body, vocab);
    let ghost f = front@;
    front.push((c, b));
    assert(front@.drop_last() =~= f);
    assert(branches_view(s).drop_last() =~= branches_view(s.drop_last()));
    front
}

} // verus!
