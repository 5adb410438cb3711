//! Yara's grammar, as functions from a token sequence and a position to the
//! syntax value read there and the position after it, or the first fault.
//!
//! The grammar is recursive descent with one token of lookahead (two after
//! an identifier). Expressions climb four precedence levels, loosest first:
//! comparisons, `+`/`-`, `*`/`/`, prefix `-`; each binary level is
//! left-associative. Postfix indexing, field access and method calls bind
//! tightest of all. Each rule that reads a sub-part and then goes on at the
//! position after it states that position's advance as part of the rule
//! (`q > p`); every rule that succeeds does advance, so these conditions
//! always hold.

use vstd::prelude::*;
use crate::ast::{BinOp, UnOp};
use crate::lexer::{Token, TokenKind, KindModel};
use crate::syntax::{AnnM, ParamM, ExprM, StmtM, exprm_pos};
use crate::text::{debug_quoted, signed_decimal};
use crate::types::canonical_alias;

verus! {

/// A parse fault: message, line, column.
pub type Fault = (Seq<char>, usize, usize);

/// The debug name of a token kind without a payload.
pub open spec fn plain_name(k: TokenKind) -> Seq<char> {
    match k {
        TokenKind::Def => "Def"@,
        TokenKind::End => "End"@,
        TokenKind::If => "If"@,
        TokenKind::Elsif => "Elsif"@,
        TokenKind::Else => "Else"@,
        TokenKind::While => "While"@,
        TokenKind::For => "For"@,
        TokenKind::In => "In"@,
        TokenKind::Const => "Const"@,
        TokenKind::Return => "Return"@,
        TokenKind::Nil => "Nil"@,
        TokenKind::Import => "Import"@,
        TokenKind::Class => "Class"@,
        TokenKind::Plus => "Plus"@,
        TokenKind::Minus => "Minus"@,
        TokenKind::Star => "Star"@,
        TokenKind::Slash => "Slash"@,
        TokenKind::EqEq => "EqEq"@,
        TokenKind::NotEq => "NotEq"@,
        TokenKind::Lt => "Lt"@,
        TokenKind::Gt => "Gt"@,
        TokenKind::LtEq => "LtEq"@,
        TokenKind::GtEq => "GtEq"@,
        TokenKind::Eq => "Eq"@,
        TokenKind::Colon => "Colon"@,
        TokenKind::ColonEq => "ColonEq"@,
        TokenKind::DotDot => "DotDot"@,
        TokenKind::Dot => "Dot"@,
        TokenKind::LParen => "LParen"@,
        TokenKind::RParen => "RParen"@,
        TokenKind::LBracket => "LBracket"@,
        TokenKind::RBracket => "RBracket"@,
        TokenKind::Comma => "Comma"@,
        TokenKind::Eof => "Eof"@,
        _ => Seq::empty(),
    }
}

/// A token kind in its debug form, as parse errors show what they found:
/// `Ident("x")`, `Int(5)`, `RParen`, ... A float shows its literal text.
pub open spec fn token_text(k: KindModel) -> Seq<char> {
    match k {
        KindModel::Int(v) => "Int("@ + signed_decimal(v as int) + ")"@,
        KindModel::Float(t) => "Float("@ + t + ")"@,
        KindModel::Str(s) => "Str("@ + debug_quoted(s) + ")"@,
        KindModel::Bool(b) => if b {
            "Bool(true)"@
        } else {
            "Bool(false)"@
        },
        KindModel::Ident(s) => "Ident("@ + debug_quoted(s) + ")"@,
        KindModel::Plain(t) => plain_name(t),
    }
}

/// The kind of the token at `p`.
pub open spec fn kind_at(ts: Seq<Token>, p: int) -> KindModel {
    ts[p].kind@
}

/// Whether the token at `p` is the payload-free kind `k`.
pub open spec fn is_at(ts: Seq<Token>, p: int, k: TokenKind) -> bool {
    ts[p].kind@ == KindModel::Plain(k)
}

/// A fault at the token at `p`.
pub open spec fn fault_at(ts: Seq<Token>, p: int, message: Seq<char>) -> Fault {
    (message, ts[p].line, ts[p].column)
}

/// `expected WHAT, found TOKEN` at `p`.
pub open spec fn expected_at(ts: Seq<Token>, p: int, what: Seq<char>) -> Fault {
    fault_at(ts, p, "expected "@ + what + ", found "@ + token_text(kind_at(ts, p)))
}

/// Consumes a token of kind `k` at `p`, or fails naming `what` was expected.
pub open spec fn expect_at(ts: Seq<Token>, p: int, k: TokenKind, what: Seq<char>) -> Result<int, Fault> {
    if is_at(ts, p, k) {
        Ok(p + 1)
    } else {
        Err(expected_at(ts, p, what))
    }
}

/// The identifier at `p`, or a fault.
pub open spec fn ident_at(ts: Seq<Token>, p: int) -> Result<Seq<char>, Fault> {
    match kind_at(ts, p) {
        KindModel::Ident(s) => Ok(s),
        k => Err(fault_at(ts, p, "expected identifier, found "@ + token_text(k))),
    }
}

/// The message for a block that the input ends inside.
pub open spec fn unclosed_block() -> Seq<char> {
    "unexpected end of input, expected `end`"@
}

/// How many tokens are left from `p`; a position past the end leaves none.
pub open spec fn tokens_left(ts: Seq<Token>, p: int) -> nat {
    if 0 <= p <= ts.len() {
        (ts.len() - p) as nat
    } else {
        0
    }
}

/// A type annotation: a name with its alias normalized, or `Ptr<inner>`.
pub open spec fn type_ann(ts: Seq<Token>, p: int) -> Result<(AnnM, int), Fault>
    decreases tokens_left(ts, p),
{
    if p < 0 || p >= ts.len() {
        Err(fault_at(ts, p, Seq::empty()))
    } else {
        match ident_at(ts, p) {
            Err(f) => Err(f),
            Ok(name) => if name == "Ptr"@ {
                match expect_at(ts, p + 1, TokenKind::Lt, "`<`"@) {
                    Err(f) => Err(f),
                    Ok(q) => match type_ann(ts, q) {
                        Err(f) => Err(f),
                        Ok((inner, q2)) => match expect_at(ts, q2, TokenKind::Gt, "`>`"@) {
                            Err(f) => Err(f),
                            Ok(q3) => Ok((
                                AnnM { name: "Ptr<"@ + inner.name + ">"@, line: ts[p].line, column: ts[p].column },
                                q3,
                            )),
                        },
                    },
                }
            } else {
                Ok((AnnM { name: canonical_alias(name), line: ts[p].line, column: ts[p].column }, p + 1))
            },
        }
    }
}

/// The comparison operator a token stands for, if any.
pub open spec fn comparison_op(k: KindModel) -> Option<BinOp> {
    match k {
        KindModel::Plain(TokenKind::EqEq) => Some(BinOp::Eq),
        KindModel::Plain(TokenKind::NotEq) => Some(BinOp::NotEq),
        KindModel::Plain(TokenKind::Lt) => Some(BinOp::Lt),
        KindModel::Plain(TokenKind::Gt) => Some(BinOp::Gt),
        KindModel::Plain(TokenKind::LtEq) => Some(BinOp::LtEq),
        KindModel::Plain(TokenKind::GtEq) => Some(BinOp::GtEq),
        _ => None,
    }
}

/// The additive operator a token stands for, if any.
pub open spec fn additive_op(k: KindModel) -> Option<BinOp> {
    match k {
        KindModel::Plain(TokenKind::Plus) => Some(BinOp::Add),
        KindModel::Plain(TokenKind::Minus) => Some(BinOp::Sub),
        _ => None,
    }
}

/// The multiplicative operator a token stands for, if any.
pub open spec fn multiplicative_op(k: KindModel) -> Option<BinOp> {
    match k {
        KindModel::Plain(TokenKind::Star) => Some(BinOp::Mul),
        KindModel::Plain(TokenKind::Slash) => Some(BinOp::Div),
        _ => None,
    }
}

/// The operator of a binary level (0: comparison, 1: additive, 2:
/// multiplicative) that a token stands for, if any.
pub open spec fn level_op(level: nat, k: KindModel) -> Option<BinOp> {
    if level == 0 {
        comparison_op(k)
    } else if level == 1 {
        additive_op(k)
    } else {
        multiplicative_op(k)
    }
}

/// The rank of a binary level in the descent: looser levels rank higher.
pub open spec fn level_rank(level: nat) -> nat {
    if level >= 3 {
        16
    } else {
        (19 - level) as nat
    }
}

/// An expression: the loosest level, comparisons.
pub open spec fn expr(ts: Seq<Token>, p: int) -> Result<(ExprM, int), Fault>
    decreases tokens_left(ts, p), 20nat,
{
    binary(ts, p, 0)
}

/// One binary level: an operand of the next tighter level, then any chain
/// of this level's operators, each with its right operand, grouped to the
/// left. Level 3 is the prefix level.
pub open spec fn binary(ts: Seq<Token>, p: int, level: nat) -> Result<(ExprM, int), Fault>
    decreases tokens_left(ts, p), level_rank(level),
{
    if p < 0 || p >= ts.len() {
        Err(fault_at(ts, p, Seq::empty()))
    } else if level >= 3 {
        unary(ts, p)
    } else {
        match binary(ts, p, level + 1) {
            Err(f) => Err(f),
            Ok((left, q)) => if q > p {
                binary_chain(ts, left, q, level)
            } else {
                Ok((left, q))
            },
        }
    }
}

/// The rest of a binary level after its left operand `left`, from `p`.
pub open spec fn binary_chain(ts: Seq<Token>, left: ExprM, p: int, level: nat) -> Result<(ExprM, int), Fault>
    decreases tokens_left(ts, p), level_rank(level),
{
    if p < 0 || p >= ts.len() || level >= 3 {
        Ok((left, p))
    } else {
        match level_op(level, kind_at(ts, p)) {
            None => Ok((left, p)),
            Some(op) => match binary(ts, p + 1, level + 1) {
                Err(f) => Err(f),
                Ok((right, q)) => if q > p {
                    binary_chain(ts, ExprM::Binary(op, Box::new(left), Box::new(right), ts[p].line, ts[p].column), q, level)
                } else {
                    Ok((left, p))
                },
            },
        }
    }
}

/// Prefix `-`, nested for each one, over a postfix expression.
pub open spec fn unary(ts: Seq<Token>, p: int) -> Result<(ExprM, int), Fault>
    decreases tokens_left(ts, p), 15nat,
{
    if p < 0 || p >= ts.len() {
        Err(fault_at(ts, p, Seq::empty()))
    } else if is_at(ts, p, TokenKind::Minus) {
        match unary(ts, p + 1) {
            Err(f) => Err(f),
            Ok((e, q)) => Ok((ExprM::Unary(UnOp::Neg, Box::new(e), ts[p].line, ts[p].column), q)),
        }
    } else {
        match primary(ts, p) {
            Err(f) => Err(f),
            Ok((e, q)) => if q > p {
                postfix(ts, e, q)
            } else {
                Ok((e, q))
            },
        }
    }
}

/// Any chain of `[index]`, `.field` and `.method(args)` after `e`, from `p`.
pub open spec fn postfix(ts: Seq<Token>, e: ExprM, p: int) -> Result<(ExprM, int), Fault>
    decreases tokens_left(ts, p), 14nat,
{
    if p < 0 || p >= ts.len() {
        Ok((e, p))
    } else if is_at(ts, p, TokenKind::LBracket) {
        match expr(ts, p + 1) {
            Err(f) => Err(f),
            Ok((index, q)) => match expect_at(ts, q, TokenKind::RBracket, "`]`"@) {
                Err(f) => Err(f),
                Ok(q2) => if q2 > p {
                    postfix(ts, ExprM::Index(Box::new(e), Box::new(index), ts[p].line, ts[p].column), q2)
                } else {
                    Ok((e, p))
                },
            },
        }
    } else if is_at(ts, p, TokenKind::Dot) {
        match ident_at(ts, p + 1) {
            Err(f) => Err(f),
            Ok(name) => if is_at(ts, p + 2, TokenKind::LParen) {
                match expr_list(ts, p + 3, true) {
                    Err(f) => Err(f),
                    Ok((args, q)) => if q > p {
                        postfix(ts, ExprM::MethodCall(Box::new(e), name, args, ts[p].line, ts[p].column), q)
                    } else {
                        Ok((e, p))
                    },
                }
            } else {
                postfix(ts, ExprM::FieldAccess(Box::new(e), name, ts[p].line, ts[p].column), p + 2)
            },
        }
    } else {
        Ok((e, p))
    }
}

/// A literal, an identifier, a call `name(args)`, a parenthesized
/// expression or an array literal `[elements]`.
pub open spec fn primary(ts: Seq<Token>, p: int) -> Result<(ExprM, int), Fault>
    decreases tokens_left(ts, p), 13nat,
{
    if p < 0 || p >= ts.len() {
        Err(fault_at(ts, p, Seq::empty()))
    } else {
        let line = ts[p].line;
        let column = ts[p].column;
        match kind_at(ts, p) {
            KindModel::Int(v) => Ok((ExprM::IntLit(v, line, column), p + 1)),
            KindModel::Float(t) => Ok((ExprM::FloatLit(t, line, column), p + 1)),
            KindModel::Str(s) => Ok((ExprM::StringLit(s, line, column), p + 1)),
            KindModel::Bool(b) => Ok((ExprM::BoolLit(b, line, column), p + 1)),
            KindModel::Plain(TokenKind::Nil) => Ok((ExprM::NilLit(line, column), p + 1)),
            KindModel::Ident(name) => if is_at(ts, p + 1, TokenKind::LParen) {
                match expr_list(ts, p + 2, true) {
                    Err(f) => Err(f),
                    Ok((args, q)) => Ok((ExprM::Call(name, args, line, column), q)),
                }
            } else {
                Ok((ExprM::Ident(name, line, column), p + 1))
            },
            KindModel::Plain(TokenKind::LParen) => match expr(ts, p + 1) {
                Err(f) => Err(f),
                Ok((inner, q)) => match expect_at(ts, q, TokenKind::RParen, "`)`"@) {
                    Err(f) => Err(f),
                    Ok(q2) => Ok((inner, q2)),
                },
            },
            KindModel::Plain(TokenKind::LBracket) => match expr_list(ts, p + 1, false) {
                Err(f) => Err(f),
                Ok((elements, q)) => Ok((ExprM::ArrayLit(elements, line, column), q)),
            },
            _ => Err(fault_at(ts, p, "parse/unexpected-token"@)),
        }
    }
}

/// The closing token of a list: `)` when `paren`, else `]`.
pub open spec fn closer(paren: bool) -> TokenKind {
    if paren {
        TokenKind::RParen
    } else {
        TokenKind::RBracket
    }
}

/// How a missing closer is named: "`)`" or "`]`".
pub open spec fn closer_text(paren: bool) -> Seq<char> {
    if paren {
        "`)`"@
    } else {
        "`]`"@
    }
}

/// A comma-separated list of expressions up to and including its closer;
/// empty when the closer comes at once, no trailing comma.
pub open spec fn expr_list(ts: Seq<Token>, p: int, paren: bool) -> Result<(Seq<ExprM>, int), Fault>
    decreases tokens_left(ts, p), 22nat,
{
    if 0 <= p < ts.len() && is_at(ts, p, closer(paren)) {
        Ok((Seq::empty(), p + 1))
    } else {
        expr_items(ts, p, paren, Seq::empty())
    }
}

/// The items of a list from `p`, after the items `acc` already read.
pub open spec fn expr_items(ts: Seq<Token>, p: int, paren: bool, acc: Seq<ExprM>) -> Result<(Seq<ExprM>, int), Fault>
    decreases tokens_left(ts, p), 21nat,
{
    if p < 0 || p >= ts.len() {
        Err(fault_at(ts, p, Seq::empty()))
    } else {
    match expr(ts, p) {
        Err(f) => Err(f),
        Ok((e, q)) => if 0 <= q < ts.len() && is_at(ts, q, TokenKind::Comma) {
            if q + 1 > p {
                expr_items(ts, q + 1, paren, acc.push(e))
            } else {
                Ok((acc.push(e), q))
            }
        } else {
            match expect_at(ts, q, closer(paren), closer_text(paren)) {
                Err(f) => Err(f),
                Ok(q2) => Ok((acc.push(e), q2)),
            }
        },
    }
    }
}

/// One parameter, `name: Type`.
pub open spec fn param(ts: Seq<Token>, p: int) -> Result<(ParamM, int), Fault> {
    match ident_at(ts, p) {
        Err(f) => Err(f),
        Ok(name) => match expect_at(ts, p + 1, TokenKind::Colon, "`:`"@) {
            Err(f) => Err(f),
            Ok(q) => match type_ann(ts, q) {
                Err(f) => Err(f),
                Ok((ann, q2)) => Ok((ParamM { name, type_ann: ann, line: ts[p].line, column: ts[p].column }, q2)),
            },
        },
    }
}

/// A parameter list after its `(`, up to and including the `)`.
pub open spec fn param_list(ts: Seq<Token>, p: int) -> Result<(Seq<ParamM>, int), Fault> {
    if 0 <= p < ts.len() && is_at(ts, p, TokenKind::RParen) {
        Ok((Seq::empty(), p + 1))
    } else {
        param_items(ts, p, Seq::empty())
    }
}

/// The parameters from `p`, after those in `acc`.
pub open spec fn param_items(ts: Seq<Token>, p: int, acc: Seq<ParamM>) -> Result<(Seq<ParamM>, int), Fault>
    decreases tokens_left(ts, p),
{
    if p < 0 || p >= ts.len() {
        Err(fault_at(ts, p, Seq::empty()))
    } else {
    match param(ts, p) {
        Err(f) => Err(f),
        Ok((prm, q)) => if 0 <= q < ts.len() && is_at(ts, q, TokenKind::Comma) {
            if q + 1 > p {
                param_items(ts, q + 1, acc.push(prm))
            } else {
                Ok((acc.push(prm), q))
            }
        } else {
            match expect_at(ts, q, TokenKind::RParen, "`)`"@) {
                Err(f) => Err(f),
                Ok(q2) => Ok((acc.push(prm), q2)),
            }
        },
    }
    }
}

/// Which tokens end a block: `end` alone, or also `elsif` and `else`.
pub open spec fn ends_block(ts: Seq<Token>, p: int, branch: bool) -> bool {
    is_at(ts, p, TokenKind::End) || (branch && (is_at(ts, p, TokenKind::Elsif) || is_at(ts, p, TokenKind::Else)))
}

/// A statement, chosen by its first token.
pub open spec fn stmt(ts: Seq<Token>, p: int) -> Result<(StmtM, int), Fault>
    decreases tokens_left(ts, p), 30nat,
{
    if p < 0 || p >= ts.len() {
        Err(fault_at(ts, p, Seq::empty()))
    } else {
        match kind_at(ts, p) {
            KindModel::Plain(TokenKind::Def) => function_def(ts, p),
            KindModel::Plain(TokenKind::Const) => const_decl(ts, p),
            KindModel::Plain(TokenKind::Class) => class_def(ts, p),
            KindModel::Plain(TokenKind::Import) => import_stmt(ts, p),
            KindModel::Plain(TokenKind::Return) => return_stmt(ts, p),
            KindModel::Plain(TokenKind::If) => if_stmt(ts, p),
            KindModel::Plain(TokenKind::While) => while_stmt(ts, p),
            KindModel::Plain(TokenKind::For) => for_stmt(ts, p),
            KindModel::Ident(_) => ident_stmt(ts, p),
            _ => match expr(ts, p) {
                Err(f) => Err(f),
                Ok((e, q)) => Ok((StmtM::ExprStmt(e), q)),
            },
        }
    }
}

/// The statements of a block from `p`, after those in `acc`, up to (not
/// including) a token that ends it; the input may not end first.
pub open spec fn block(ts: Seq<Token>, p: int, branch: bool, acc: Seq<StmtM>) -> Result<(Seq<StmtM>, int), Fault>
    decreases tokens_left(ts, p), 31nat,
{
    if p < 0 || p >= ts.len() {
        Err(fault_at(ts, p, Seq::empty()))
    } else if ends_block(ts, p, branch) {
        Ok((acc, p))
    } else if is_at(ts, p, TokenKind::Eof) {
        Err(fault_at(ts, p, unclosed_block()))
    } else {
        match stmt(ts, p) {
            Err(f) => Err(f),
            Ok((s, q)) => if q > p {
                block(ts, q, branch, acc.push(s))
            } else {
                Ok((acc, p))
            },
        }
    }
}

/// `def name(params)[: Type] body end`.
pub open spec fn function_def(ts: Seq<Token>, p: int) -> Result<(StmtM, int), Fault>
    decreases tokens_left(ts, p), 25nat,
{
    if p < 0 || p >= ts.len() {
        Err(fault_at(ts, p, Seq::empty()))
    } else {
    match ident_at(ts, p + 1) {
        Err(f) => Err(f),
        Ok(name) => match expect_at(ts, p + 2, TokenKind::LParen, "`(`"@) {
            Err(f) => Err(f),
            Ok(q) => match param_list(ts, q) {
                Err(f) => Err(f),
                Ok((params, q1)) => match return_type(ts, q1) {
                    Err(f) => Err(f),
                    Ok((ret, q2)) => if q2 > p {
                        match block(ts, q2, false, Seq::empty()) {
                            Err(f) => Err(f),
                            Ok((body, q3)) => match expect_at(ts, q3, TokenKind::End, "`end`"@) {
                                Err(f) => Err(f),
                                Ok(q4) => Ok((StmtM::FunctionDef(name, params, ret, body, ts[p].line, ts[p].column), q4)),
                            },
                        }
                    } else {
                        Err(fault_at(ts, p, Seq::empty()))
                    },
                },
            },
        },
    }
    }
}

/// An optional `: Type` at `p`.
pub open spec fn return_type(ts: Seq<Token>, p: int) -> Result<(Option<AnnM>, int), Fault> {
    if 0 <= p < ts.len() && is_at(ts, p, TokenKind::Colon) {
        match type_ann(ts, p + 1) {
            Err(f) => Err(f),
            Ok((a, q)) => Ok((Some(a), q)),
        }
    } else {
        Ok((None, p))
    }
}

/// `const NAME[: Type] = value`.
pub open spec fn const_decl(ts: Seq<Token>, p: int) -> Result<(StmtM, int), Fault> {
    match ident_at(ts, p + 1) {
        Err(f) => Err(f),
        Ok(name) => match return_type(ts, p + 2) {
            Err(f) => Err(f),
            Ok((ann, q)) => match expect_at(ts, q, TokenKind::Eq, "`=`"@) {
                Err(f) => Err(f),
                Ok(q2) => match expr(ts, q2) {
                    Err(f) => Err(f),
                    Ok((value, q3)) => Ok((StmtM::ConstDecl(name, ann, value, ts[p].line, ts[p].column), q3)),
                },
            },
        },
    }
}

/// `class Name [< Parent]` members `end`.
pub open spec fn class_def(ts: Seq<Token>, p: int) -> Result<(StmtM, int), Fault>
    decreases tokens_left(ts, p), 25nat,
{
    if p < 0 || p >= ts.len() {
        Err(fault_at(ts, p, Seq::empty()))
    } else {
    match ident_at(ts, p + 1) {
        Err(f) => Err(f),
        Ok(name) => if is_at(ts, p + 2, TokenKind::Lt) {
            match ident_at(ts, p + 3) {
                Err(f) => Err(f),
                Ok(parent) => class_members(ts, p + 4, name, Some(parent), Seq::empty(), Seq::empty(), Seq::empty(), p),
            }
        } else {
            class_members(ts, p + 2, name, None, Seq::empty(), Seq::empty(), Seq::empty(), p)
        },
    }
    }
}

/// The message for something that cannot stand in a class body.
pub open spec fn bad_member(ts: Seq<Token>, p: int) -> Seq<char> {
    "expected a const, field, or method declaration inside `class`, found "@ + token_text(kind_at(ts, p))
}

/// A class body from `p` up to and including its `end`: constants, fields
/// `name: Type` and methods, collected in order; `start` is where the class
/// begins.
pub open spec fn class_members(
    ts: Seq<Token>,
    p: int,
    name: Seq<char>,
    parent: Option<Seq<char>>,
    consts: Seq<StmtM>,
    fields: Seq<ParamM>,
    methods: Seq<StmtM>,
    start: int,
) -> Result<(StmtM, int), Fault>
    decreases tokens_left(ts, p), 26nat,
{
    if p < 0 || p >= ts.len() || start < 0 || start >= ts.len() {
        Err(fault_at(ts, p, Seq::empty()))
    } else if is_at(ts, p, TokenKind::End) {
        Ok((StmtM::ClassDef(name, parent, consts, fields, methods, ts[start].line, ts[start].column), p + 1))
    } else {
        match kind_at(ts, p) {
            KindModel::Plain(TokenKind::Eof) => Err(fault_at(ts, p, unclosed_block())),
            KindModel::Plain(TokenKind::Const) => match const_decl(ts, p) {
                Err(f) => Err(f),
                Ok((c, q)) => if q > p {
                    class_members(ts, q, name, parent, consts.push(c), fields, methods, start)
                } else {
                    Err(fault_at(ts, p, Seq::empty()))
                },
            },
            KindModel::Plain(TokenKind::Def) => match function_def(ts, p) {
                Err(f) => Err(f),
                Ok((m, q)) => if q > p {
                    class_members(ts, q, name, parent, consts, fields, methods.push(m), start)
                } else {
                    Err(fault_at(ts, p, Seq::empty()))
                },
            },
            KindModel::Ident(fname) => match expect_at(ts, p + 1, TokenKind::Colon, "`:`"@) {
                Err(f) => Err(f),
                Ok(q) => match type_ann(ts, q) {
                    Err(f) => Err(f),
                    Ok((ann, q2)) => if q2 > p {
                        class_members(
                            ts,
                            q2,
                            name,
                            parent,
                            consts,
                            fields.push(ParamM { name: fname, type_ann: ann, line: ts[p].line, column: ts[p].column }),
                            methods,
                            start,
                        )
                    } else {
                        Err(fault_at(ts, p, Seq::empty()))
                    },
                },
            },
            _ => Err(fault_at(ts, p, bad_member(ts, p))),
        }
    }
}

/// `import "path"`.
pub open spec fn import_stmt(ts: Seq<Token>, p: int) -> Result<(StmtM, int), Fault> {
    match kind_at(ts, p + 1) {
        KindModel::Str(path) => Ok((StmtM::Import(path, ts[p].line, ts[p].column), p + 2)),
        k => Err(fault_at(ts, p + 1, "expected string literal after `import`, found "@ + token_text(k))),
    }
}

/// `return` with a value unless `end` or the end of input follows.
pub open spec fn return_stmt(ts: Seq<Token>, p: int) -> Result<(StmtM, int), Fault> {
    if is_at(ts, p + 1, TokenKind::End) || is_at(ts, p + 1, TokenKind::Eof) {
        Ok((StmtM::Return(None, ts[p].line, ts[p].column), p + 1))
    } else {
        match expr(ts, p + 1) {
            Err(f) => Err(f),
            Ok((e, q)) => Ok((StmtM::Return(Some(e), ts[p].line, ts[p].column), q)),
        }
    }
}

/// `if cond body [elsif cond body]* [else body] end`.
pub open spec fn if_stmt(ts: Seq<Token>, p: int) -> Result<(StmtM, int), Fault>
    decreases tokens_left(ts, p), 25nat,
{
    if p < 0 || p >= ts.len() {
        Err(fault_at(ts, p, Seq::empty()))
    } else {
    match expr(ts, p + 1) {
        Err(f) => Err(f),
        Ok((cond, q)) => if q > p {
            match block(ts, q, true, Seq::empty()) {
                Err(f) => Err(f),
                Ok((then_body, q2)) => if q2 > p {
                    match if_rest(ts, q2, Seq::empty()) {
                        Err(f) => Err(f),
                        Ok((branches, else_body, q3)) => Ok((
                            StmtM::If(cond, then_body, branches, else_body, ts[p].line, ts[p].column),
                            q3,
                        )),
                    }
                } else {
                    Err(fault_at(ts, p, Seq::empty()))
                },
            }
        } else {
            Err(fault_at(ts, p, Seq::empty()))
        },
    }
    }
}

/// After an `if`'s first body: its `elsif` branches (after those in
/// `branches`), its optional `else` body and the closing `end`.
pub open spec fn if_rest(ts: Seq<Token>, p: int, branches: Seq<(ExprM, Seq<StmtM>)>) -> Result<
    (Seq<(ExprM, Seq<StmtM>)>, Option<Seq<StmtM>>, int),
    Fault,
>
    decreases tokens_left(ts, p), 26nat,
{
    if p < 0 || p >= ts.len() {
        Err(fault_at(ts, p, Seq::empty()))
    } else if is_at(ts, p, TokenKind::Elsif) {
        match expr(ts, p + 1) {
            Err(f) => Err(f),
            Ok((cond, q)) => if q > p {
                match block(ts, q, true, Seq::empty()) {
                    Err(f) => Err(f),
                    Ok((body, q2)) => if q2 > p {
                        if_rest(ts, q2, branches.push((cond, body)))
                    } else {
                        Err(fault_at(ts, p, Seq::empty()))
                    },
                }
            } else {
                Err(fault_at(ts, p, Seq::empty()))
            },
        }
    } else if is_at(ts, p, TokenKind::Else) {
        match block(ts, p + 1, false, Seq::empty()) {
            Err(f) => Err(f),
            Ok((body, q)) => match expect_at(ts, q, TokenKind::End, "`end`"@) {
                Err(f) => Err(f),
                Ok(q2) => Ok((branches, Some(body), q2)),
            },
        }
    } else {
        match expect_at(ts, p, TokenKind::End, "`end`"@) {
            Err(f) => Err(f),
            Ok(q) => Ok((branches, None, q)),
        }
    }
}

/// `while cond body end`.
pub open spec fn while_stmt(ts: Seq<Token>, p: int) -> Result<(StmtM, int), Fault>
    decreases tokens_left(ts, p), 25nat,
{
    if p < 0 || p >= ts.len() {
        Err(fault_at(ts, p, Seq::empty()))
    } else {
    match expr(ts, p + 1) {
        Err(f) => Err(f),
        Ok((cond, q)) => if q > p {
            match block(ts, q, false, Seq::empty()) {
                Err(f) => Err(f),
                Ok((body, q2)) => match expect_at(ts, q2, TokenKind::End, "`end`"@) {
                    Err(f) => Err(f),
                    Ok(q3) => Ok((StmtM::While(cond, body, ts[p].line, ts[p].column), q3)),
                },
            }
        } else {
            Err(fault_at(ts, p, Seq::empty()))
        },
    }
    }
}

/// `for name in start..end body end`; the bounds are additive expressions.
pub open spec fn for_stmt(ts: Seq<Token>, p: int) -> Result<(StmtM, int), Fault>
    decreases tokens_left(ts, p), 25nat,
{
    if p < 0 || p >= ts.len() {
        Err(fault_at(ts, p, Seq::empty()))
    } else {
    match ident_at(ts, p + 1) {
        Err(f) => Err(f),
        Ok(var) => match expect_at(ts, p + 2, TokenKind::In, "`in`"@) {
            Err(f) => Err(f),
            Ok(q) => match binary(ts, q, 1) {
                Err(f) => Err(f),
                Ok((start, q1)) => match expect_at(ts, q1, TokenKind::DotDot, "`..`"@) {
                    Err(f) => Err(f),
                    Ok(q2) => match binary(ts, q2, 1) {
                        Err(f) => Err(f),
                        Ok((end, q3)) => if q3 > p {
                            match block(ts, q3, false, Seq::empty()) {
                                Err(f) => Err(f),
                                Ok((body, q4)) => match expect_at(ts, q4, TokenKind::End, "`end`"@) {
                                    Err(f) => Err(f),
                                    Ok(q5) => Ok((StmtM::For(var, start, end, body, ts[p].line, ts[p].column), q5)),
                                },
                            }
                        } else {
                            Err(fault_at(ts, p, Seq::empty()))
                        },
                    },
                },
            },
        },
    }
    }
}

/// A statement that starts with an identifier: `name: Type = value`, or an
/// expression that, when `=` follows, must be a name (`name = value`) or a
/// field access (`object.field = value`); otherwise an expression statement.
pub open spec fn ident_stmt(ts: Seq<Token>, p: int) -> Result<(StmtM, int), Fault> {
    match ident_at(ts, p) {
        Err(f) => Err(f),
        Ok(name) => if is_at(ts, p + 1, TokenKind::Colon) {
            match type_ann(ts, p + 2) {
                Err(f) => Err(f),
                Ok((ann, q)) => match expect_at(ts, q, TokenKind::Eq, "`=`"@) {
                    Err(f) => Err(f),
                    Ok(q2) => match expr(ts, q2) {
                        Err(f) => Err(f),
                        Ok((value, q3)) => Ok((StmtM::VarDecl(name, Some(ann), value, ts[p].line, ts[p].column), q3)),
                    },
                },
            }
        } else {
            match expr(ts, p) {
                Err(f) => Err(f),
                Ok((target, q)) => if 0 <= q < ts.len() && is_at(ts, q, TokenKind::Eq) {
                    match expr(ts, q + 1) {
                        Err(f) => Err(f),
                        Ok((value, q2)) => match target {
                            ExprM::Ident(n, l, c) => Ok((StmtM::VarDecl(n, None, value, l, c), q2)),
                            ExprM::FieldAccess(object, field, l, c) => Ok((StmtM::FieldAssign(*object, field, value, l, c), q2)),
                            other => Err(("invalid assignment target"@, exprm_pos(other).0, exprm_pos(other).1)),
                        },
                    }
                } else {
                    Ok((StmtM::ExprStmt(target), q))
                },
            }
        },
    }
}

/// The statements of a program from `p`, after those in `acc`, up to its
/// end-of-input token.
pub open spec fn program_from(ts: Seq<Token>, p: int, acc: Seq<StmtM>) -> Result<Seq<StmtM>, Fault>
    decreases tokens_left(ts, p),
{
    if p < 0 || p >= ts.len() {
        Err(fault_at(ts, p, Seq::empty()))
    } else if is_at(ts, p, TokenKind::Eof) {
        Ok(acc)
    } else {
        match stmt(ts, p) {
            Err(f) => Err(f),
            Ok((s, q)) => if q > p {
                program_from(ts, q, acc.push(s))
            } else {
                Err(fault_at(ts, p, Seq::empty()))
            },
        }
    }
}

/// A whole program: its statements in order, or the first fault.
pub open spec fn program(ts: Seq<Token>) -> Result<Seq<StmtM>, Fault> {
    program_from(ts, 0, Seq::empty())
}

/// The precedence level of a binary operator token, loosest first:
/// 0 for comparisons, 1 for `+` and `-`, 2 for `*` and `/`; -1 for any
/// other token.
pub open spec fn op_level(k: KindModel) -> int {
    match k {
        KindModel::Plain(TokenKind::EqEq) => 0,
        KindModel::Plain(TokenKind::NotEq) => 0,
        KindModel::Plain(TokenKind::Lt) => 0,
        KindModel::Plain(TokenKind::Gt) => 0,
        KindModel::Plain(TokenKind::LtEq) => 0,
        KindModel::Plain(TokenKind::GtEq) => 0,
        KindModel::Plain(TokenKind::Plus) => 1,
        KindModel::Plain(TokenKind::Minus) => 1,
        KindModel::Plain(TokenKind::Star) => 2,
        KindModel::Plain(TokenKind::Slash) => 2,
        _ => -1,
    }
}

/// The operator a binary operator token stands for.
pub open spec fn op_of(k: KindModel) -> BinOp {
    match k {
        KindModel::Plain(TokenKind::EqEq) => BinOp::Eq,
        KindModel::Plain(TokenKind::NotEq) => BinOp::NotEq,
        KindModel::Plain(TokenKind::Lt) => BinOp::Lt,
        KindModel::Plain(TokenKind::Gt) => BinOp::Gt,
        KindModel::Plain(TokenKind::LtEq) => BinOp::LtEq,
        KindModel::Plain(TokenKind::GtEq) => BinOp::GtEq,
        KindModel::Plain(TokenKind::Plus) => BinOp::Add,
        KindModel::Plain(TokenKind::Minus) => BinOp::Sub,
        KindModel::Plain(TokenKind::Star) => BinOp::Mul,
        _ => BinOp::Div,
    }
}

/// An integer literal token's value.
pub open spec fn int_lit(ts: Seq<Token>, p: int) -> ExprM {
    ExprM::IntLit(ts[p].kind@->Int_0, ts[p].line, ts[p].column)
}

/// Each binary level takes exactly the operator tokens of its precedence.
proof fn lemma_level_op_matches(level: nat, k: KindModel)
    requires
        level < 3,
    ensures
        level_op(level, k) is Some <==> op_level(k) == level,
        level_op(level, k) is Some ==> level_op(level, k) == Some(op_of(k)),
{
}

/// A lone integer literal followed by a token that continues no operand is
/// that literal, at every binary level whose operators it is not followed by.
proof fn lemma_literal_operand(ts: Seq<Token>, p: int, level: nat)
    requires
        0 <= p && p + 1 < ts.len(),
        ts[p].kind@ is Int,
        ts[p + 1].kind@ != KindModel::Plain(TokenKind::LBracket),
        ts[p + 1].kind@ != KindModel::Plain(TokenKind::Dot),
        level <= 3,
        op_level(ts[p + 1].kind@) < level,
    ensures
        binary(ts, p, level) == Ok::<(ExprM, int), Fault>((int_lit(ts, p), p + 1)),
    decreases 3 - level,
{
    if level < 3 {
        lemma_literal_operand(ts, p, level + 1);
        lemma_level_op_matches(level, ts[p + 1].kind@);
        assert(binary_chain(ts, int_lit(ts, p), p + 1, level) == Ok::<(ExprM, int), Fault>((int_lit(ts, p), p + 1)));
    } else {
        assert(!is_at(ts, p, TokenKind::Minus));
        assert(primary(ts, p) == Ok::<(ExprM, int), Fault>((int_lit(ts, p), p + 1)));
        assert(!is_at(ts, p + 1, TokenKind::LBracket));
        assert(!is_at(ts, p + 1, TokenKind::Dot));
        assert(postfix(ts, int_lit(ts, p), p + 1) == Ok::<(ExprM, int), Fault>((int_lit(ts, p), p + 1)));
        assert(unary(ts, p) == Ok::<(ExprM, int), Fault>((int_lit(ts, p), p + 1)));
    }
}

/// An operand parsed at the next tighter level stays as it is at a level
/// whose operators do not follow it.
proof fn lemma_pass_through(ts: Seq<Token>, p: int, e: ExprM, q: int, level: nat)
    requires
        0 <= p < q < ts.len(),
        level < 3,
        binary(ts, p, level + 1) == Ok::<(ExprM, int), Fault>((e, q)),
        op_level(ts[q].kind@) != level,
    ensures
        binary(ts, p, level) == Ok::<(ExprM, int), Fault>((e, q)),
{
    lemma_level_op_matches(level, ts[q].kind@);
    assert(binary_chain(ts, e, q, level) == Ok::<(ExprM, int), Fault>((e, q)));
}

/// An operand, an operator of this level and a right operand combine,
/// when no operator of this level follows.
proof fn lemma_take_op(ts: Seq<Token>, p: int, e: ExprM, q: int, right: ExprM, q2: int, level: nat)
    requires
        0 <= p < q < q2 < ts.len(),
        level < 3,
        binary(ts, p, level + 1) == Ok::<(ExprM, int), Fault>((e, q)),
        op_level(ts[q].kind@) == level,
        binary(ts, q + 1, level + 1) == Ok::<(ExprM, int), Fault>((right, q2)),
        op_level(ts[q2].kind@) != level,
    ensures
        binary(ts, p, level) == Ok::<(ExprM, int), Fault>((
            ExprM::Binary(op_of(ts[q].kind@), Box::new(e), Box::new(right), ts[q].line, ts[q].column),
            q2,
        )),
{
    lemma_level_op_matches(level, ts[q].kind@);
    lemma_level_op_matches(level, ts[q2].kind@);
    let whole = ExprM::Binary(op_of(ts[q].kind@), Box::new(e), Box::new(right), ts[q].line, ts[q].column);
    assert(binary_chain(ts, whole, q2, level) == Ok::<(ExprM, int), Fault>((whole, q2)));
    assert(binary_chain(ts, e, q, level) == Ok::<(ExprM, int), Fault>((whole, q2)));
}

/// A result reached at some level is the result at every looser level too,
/// when the expression ends in a token that is no operator.
proof fn lemma_lift(ts: Seq<Token>, p: int, e: ExprM, q: int, from: nat, to: nat)
    requires
        0 <= p < q < ts.len(),
        to <= from <= 3,
        binary(ts, p, from) == Ok::<(ExprM, int), Fault>((e, q)),
        op_level(ts[q].kind@) == -1,
    ensures
        binary(ts, p, to) == Ok::<(ExprM, int), Fault>((e, q)),
    decreases from - to,
{
    if to < from {
        lemma_pass_through(ts, p, e, q, (from - 1) as nat);
        lemma_lift(ts, p, e, q, (from - 1) as nat, to);
    }
}

/// Operators group by precedence, the tighter one first, and an operator of
/// equal precedence groups to the left: for integer operands `a`, `b`, `c`
/// and binary operators `x`, `y`, `a x b y c` parses as `a x (b y c)` when
/// `y` binds tighter than `x` (so `1 + 6 / 2` is `1 + (6 / 2)`), and as
/// `(a x b) y c` otherwise.
pub proof fn lemma_precedence(ts: Seq<Token>)
    requires
        ts.len() == 6,
        ts[0].kind@ is Int,
        ts[2].kind@ is Int,
        ts[4].kind@ is Int,
        op_level(ts[1].kind@) >= 0,
        op_level(ts[3].kind@) >= 0,
        ts[5].kind@ == KindModel::Plain(TokenKind::Eof),
    ensures
        op_level(ts[1].kind@) < op_level(ts[3].kind@) ==> expr(ts, 0) == Ok::<(ExprM, int), Fault>((
            ExprM::Binary(
                op_of(ts[1].kind@),
                Box::new(int_lit(ts, 0)),
                Box::new(ExprM::Binary(op_of(ts[3].kind@), Box::new(int_lit(ts, 2)), Box::new(int_lit(ts, 4)), ts[3].line,
                    ts[3].column)),
                ts[1].line,
                ts[1].column,
            ),
            5,
        )),
        op_level(ts[1].kind@) >= op_level(ts[3].kind@) ==> expr(ts, 0) == Ok::<(ExprM, int), Fault>((
            ExprM::Binary(
                op_of(ts[3].kind@),
                Box::new(ExprM::Binary(op_of(ts[1].kind@), Box::new(int_lit(ts, 0)), Box::new(int_lit(ts, 2)), ts[1].line,
                    ts[1].column)),
                Box::new(int_lit(ts, 4)),
                ts[3].line,
                ts[3].column,
            ),
            5,
        )),
{
    let l1 = op_level(ts[1].kind@);
    let l2 = op_level(ts[3].kind@);
    if l1 < l2 {
        let inner = ExprM::Binary(op_of(ts[3].kind@), Box::new(int_lit(ts, 2)), Box::new(int_lit(ts, 4)), ts[3].line, ts[3].column);
        lemma_literal_operand(ts, 2, (l2 + 1) as nat);
        lemma_literal_operand(ts, 4, (l2 + 1) as nat);
        lemma_take_op(ts, 2, int_lit(ts, 2), 3, int_lit(ts, 4), 5, l2 as nat);
        lemma_lift(ts, 2, inner, 5, l2 as nat, (l1 + 1) as nat);
        lemma_literal_operand(ts, 0, (l1 + 1) as nat);
        lemma_take_op(ts, 0, int_lit(ts, 0), 1, inner, 5, l1 as nat);
        let outer = ExprM::Binary(op_of(ts[1].kind@), Box::new(int_lit(ts, 0)), Box::new(inner), ts[1].line, ts[1].column);
        lemma_lift(ts, 0, outer, 5, l1 as nat, 0);
    } else {
        let inner = ExprM::Binary(op_of(ts[1].kind@), Box::new(int_lit(ts, 0)), Box::new(int_lit(ts, 2)), ts[1].line, ts[1].column);
        let outer = ExprM::Binary(op_of(ts[3].kind@), Box::new(inner), Box::new(int_lit(ts, 4)), ts[3].line, ts[3].column);
        lemma_literal_operand(ts, 0, (l1 + 1) as nat);
        lemma_literal_operand(ts, 2, (l1 + 1) as nat);
        if l1 == l2 {
            lemma_literal_operand(ts, 4, (l1 + 1) as nat);
            lemma_level_op_matches(l1 as nat, ts[1].kind@);
            lemma_level_op_matches(l1 as nat, ts[3].kind@);
            assert(binary_chain(ts, outer, 5, l1 as nat) == Ok::<(ExprM, int), Fault>((outer, 5)));
            assert(binary_chain(ts, inner, 3, l1 as nat) == Ok::<(ExprM, int), Fault>((outer, 5)));
            assert(binary_chain(ts, int_lit(ts, 0), 1, l1 as nat) == Ok::<(ExprM, int), Fault>((outer, 5)));
            assert(binary(ts, 0, l1 as nat) == Ok::<(ExprM, int), Fault>((outer, 5)));
            lemma_lift(ts, 0, outer, 5, l1 as nat, 0);
        } else {
            lemma_take_op(ts, 0, int_lit(ts, 0), 1, int_lit(ts, 2), 3, l1 as nat);
            lemma_lift_to(ts, inner, l1 as nat, l2 as nat);
            lemma_literal_operand(ts, 4, (l2 + 1) as nat);
            lemma_take_op(ts, 0, inner, 3, int_lit(ts, 4), 5, l2 as nat);
            lemma_lift(ts, 0, outer, 5, l2 as nat, 0);
        }
    }
}

/// In `a x b y c` with `y` looser than `x`, the left part `a x b` is the
/// operand at every level from `x`'s up to just above `y`'s.
proof fn lemma_lift_to(ts: Seq<Token>, inner: ExprM, from: nat, to: nat)
    requires
        ts.len() == 6,
        to < from < 3,
        binary(ts, 0, from) == Ok::<(ExprM, int), Fault>((inner, 3)),
        op_level(ts[3].kind@) == to,
    ensures
        binary(ts, 0, to + 1) == Ok::<(ExprM, int), Fault>((inner, 3)),
    decreases from - to,
{
    if to + 1 < from {
        lemma_pass_through(ts, 0, inner, 3, (from - 1) as nat);
        lemma_lift_to(ts, inner, (from - 1) as nat, to);
    }
}

} // verus!
