//! The parser: tokens to a syntax tree, by the rules of `grammar`, and the
//! error it reports for a malformed token sequence.

use vstd::prelude::*;
use crate::diagnostics::{Diagnostic, Span, Frame, frames_model, located_message, display_located};
use crate::ast::{BinOp, UnOp, Expr, Stmt, TypeAnnotation, Param, FieldDecl};
use crate::lexer::{Token, TokenKind, KindModel};
use crate::syntax::{AnnM, ParamM, ExprM, StmtM, ann_view, opt_ann_view, param_view, field_view, expr_view, exprs_view,
    stmt_view, stmts_view, branches_view, exprm_pos};
use crate::grammar::{Fault, token_text, is_at, kind_at, expected_at, expect_at, ident_at, fault_at, type_ann, tokens_left,
    unclosed_block, level_op, binary, binary_chain, expr, unary, postfix, primary, expr_list, expr_items, closer,
    closer_text, param, param_list, param_items, ends_block, stmt, block, function_def, return_type, const_decl,
    class_def, class_members, bad_member, import_stmt, return_stmt, if_stmt, if_rest, while_stmt, for_stmt, ident_stmt,
    program_from, program, level_rank};
use crate::text::{str_eq, push_str, i64_to_decimal, debug_str};
use crate::types::normalize_type_alias;

verus! {

/// A parse-time failure at the offending token's line and column.
#[derive(Debug, Clone, PartialEq)]
pub struct ParseError {
    pub message: String,
    pub line: usize,
    pub column: usize,
}

impl ParseError {
    /// `line:column: message`, the error's one-line form.
    pub fn display(&self) -> (r: String)
        ensures
            r@ == located_message(self.line as nat, self.column as nat, self.message@),
    {
        display_located(self.line, self.column, self.message.as_str())
    }
}

impl Diagnostic for ParseError {
    open spec fn kind_spec(&self) -> Seq<char> {
        "parse error"@
    }

    open spec fn message_spec(&self) -> Seq<char> {
        self.message@
    }

    open spec fn span_spec(&self) -> Span {
        Span::new_spec(self.line, self.column)
    }

    open spec fn frames_spec(&self) -> Seq<(Seq<char>, nat, nat)> {
        Seq::empty()
    }

    fn kind(&self) -> (r: &str)
        ensures
            r@ == "parse error"@,
    {
        "parse error"
    }

    fn message(&self) -> (r: &str)
        ensures
            r@ == self.message@,
    {
        self.message.as_str()
    }

    fn span(&self) -> (r: Span)
        ensures
            r == Span::new_spec(self.line, self.column),
    {
        Span::new(self.line, self.column)
    }

    /// No call stack: a stage error has no frames.
    fn frames(&self) -> (r: Vec<Frame>)
        ensures
            frames_model(r@) == self.frames_spec(),
    {
        let r: Vec<Frame> = Vec::new();
        assert(frames_model(r@) =~= Seq::<(Seq<char>, nat, nat)>::empty());
        r
    }
}


/// A parse result against the grammar's: on success the value's view and
/// the position after it; on failure the fault.
pub open spec fn agrees_parse<T, M>(r: Result<T, ParseError>, expected: Result<(M, int), Fault>, pos: usize, view: spec_fn(T) -> M) -> bool {
    match expected {
        Ok((m, q)) => r matches Ok(v) && view(v) == m && pos == q,
        Err(f) => r matches Err(e) && e.message@ == f.0 && e.line == f.1 && e.column == f.2,
    }
}

/// A parse error carrying a fault.
fn parse_fault(message: String, line: usize, column: usize) -> (r: ParseError)
    ensures
        r.message@ == message@,
        r.line == line,
        r.column == column,
{
    ParseError { message, line, column }
}

/// Whether `a` is the payload-free kind `k`.
fn is_kind(a: &TokenKind, k: &TokenKind) -> (r: bool)
    ensures
        r == (a@ == KindModel::Plain(*k)),
{
    match k {
        TokenKind::Def => matches!(a, TokenKind::Def),
        TokenKind::End => matches!(a, TokenKind::End),
        TokenKind::If => matches!(a, TokenKind::If),
        TokenKind::Elsif => matches!(a, TokenKind::Elsif),
        TokenKind::Else => matches!(a, TokenKind::Else),
        TokenKind::While => matches!(a, TokenKind::While),
        TokenKind::For => matches!(a, TokenKind::For),
        TokenKind::In => matches!(a, TokenKind::In),
        TokenKind::Const => matches!(a, TokenKind::Const),
        TokenKind::Return => matches!(a, TokenKind::Return),
        TokenKind::Nil => matches!(a, TokenKind::Nil),
        TokenKind::Import => matches!(a, TokenKind::Import),
        TokenKind::Class => matches!(a, TokenKind::Class),
        TokenKind::Plus => matches!(a, TokenKind::Plus),
        TokenKind::Minus => matches!(a, TokenKind::Minus),
        TokenKind::Star => matches!(a, TokenKind::Star),
        TokenKind::Slash => matches!(a, TokenKind::Slash),
        TokenKind::EqEq => matches!(a, TokenKind::EqEq),
        TokenKind::NotEq => matches!(a, TokenKind::NotEq),
        TokenKind::Lt => matches!(a, TokenKind::Lt),
        TokenKind::Gt => matches!(a, TokenKind::Gt),
        TokenKind::LtEq => matches!(a, TokenKind::LtEq),
        TokenKind::GtEq => matches!(a, TokenKind::GtEq),
        TokenKind::Eq => matches!(a, TokenKind::Eq),
        TokenKind::Colon => matches!(a, TokenKind::Colon),
        TokenKind::ColonEq => matches!(a, TokenKind::ColonEq),
        TokenKind::DotDot => matches!(a, TokenKind::DotDot),
        TokenKind::Dot => matches!(a, TokenKind::Dot),
        TokenKind::LParen => matches!(a, TokenKind::LParen),
        TokenKind::RParen => matches!(a, TokenKind::RParen),
        TokenKind::LBracket => matches!(a, TokenKind::LBracket),
        TokenKind::RBracket => matches!(a, TokenKind::RBracket),
        TokenKind::Comma => matches!(a, TokenKind::Comma),
        TokenKind::Eof => matches!(a, TokenKind::Eof),
        _ => false,
    }
}

/// A token kind's debug form, as parse errors show what they found.
pub fn token_text_of(k: &TokenKind) -> (r: String)
    ensures
        r@ == token_text(k@),
{
    match k {
        TokenKind::Int(v) => {
            let mut r = "Int(".to_owned();
            let d = i64_to_decimal(*v);
            push_str(&mut r, d.as_str());
            push_str(&mut r, ")");
            r
        },
        TokenKind::Float(t) => {
            let mut r = "Float(".to_owned();
            push_str(&mut r, t.as_str());
            push_str(&mut r, ")");
            r
        },
        TokenKind::Str(s) => {
            let mut r = "Str(".to_owned();
            let d = debug_str(s.as_str());
            push_str(&mut r, d.as_str());
            push_str(&mut r, ")");
            r
        },
        TokenKind::Bool(b) => if *b {
            "Bool(true)".to_owned()
        } else {
            "Bool(false)".to_owned()
        },
        TokenKind::Ident(s) => {
            let mut r = "Ident(".to_owned();
            let d = debug_str(s.as_str());
            push_str(&mut r, d.as_str());
            push_str(&mut r, ")");
            r
        },
        TokenKind::Def => "Def".to_owned(),
        TokenKind::End => "End".to_owned(),
        TokenKind::If => "If".to_owned(),
        TokenKind::Elsif => "Elsif".to_owned(),
        TokenKind::Else => "Else".to_owned(),
        TokenKind::While => "While".to_owned(),
        TokenKind::For => "For".to_owned(),
        TokenKind::In => "In".to_owned(),
        TokenKind::Const => "Const".to_owned(),
        TokenKind::Return => "Return".to_owned(),
        TokenKind::Nil => "Nil".to_owned(),
        TokenKind::Import => "Import".to_owned(),
        TokenKind::Class => "Class".to_owned(),
        TokenKind::Plus => "Plus".to_owned(),
        TokenKind::Minus => "Minus".to_owned(),
        TokenKind::Star => "Star".to_owned(),
        TokenKind::Slash => "Slash".to_owned(),
        TokenKind::EqEq => "EqEq".to_owned(),
        TokenKind::NotEq => "NotEq".to_owned(),
        TokenKind::Lt => "Lt".to_owned(),
        TokenKind::Gt => "Gt".to_owned(),
        TokenKind::LtEq => "LtEq".to_owned(),
        TokenKind::GtEq => "GtEq".to_owned(),
        TokenKind::Eq => "Eq".to_owned(),
        TokenKind::Colon => "Colon".to_owned(),
        TokenKind::ColonEq => "ColonEq".to_owned(),
        TokenKind::DotDot => "DotDot".to_owned(),
        TokenKind::Dot => "Dot".to_owned(),
        TokenKind::LParen => "LParen".to_owned(),
        TokenKind::RParen => "RParen".to_owned(),
        TokenKind::LBracket => "LBracket".to_owned(),
        TokenKind::RBracket => "RBracket".to_owned(),
        TokenKind::Comma => "Comma".to_owned(),
        TokenKind::Eof => "Eof".to_owned(),
    }
}

/// A recursive-descent parser over a token sequence that ends with `Eof`.
pub struct Parser {
    tokens: Vec<Token>,
    pos: usize,
}

impl Parser {
    /// The tokens being parsed.
    pub closed spec fn toks(&self) -> Seq<Token> {
        self.tokens@
    }

    /// The position of the next token to read.
    pub closed spec fn at(&self) -> int {
        self.pos as int
    }

    /// Some tokens, the last of them `Eof`, and the position on one of them.
    pub closed spec fn wf(&self) -> bool {
        &&& self.tokens@.len() > 0
        &&& self.tokens@.last().kind@ == KindModel::Plain(TokenKind::Eof)
        &&& self.pos < self.tokens@.len()
    }

    /// A parser at the first of `tokens`, which must end with `Eof`, as the
    /// lexer's output does.
    pub fn new(tokens: Vec<Token>) -> (r: Parser)
        requires
            tokens@.len() > 0,
            tokens@.last().kind@ == KindModel::Plain(TokenKind::Eof),
        ensures
            r.wf(),
            r.toks() == tokens@,
            r.at() == 0,
    {
        Parser { tokens, pos: 0 }
    }

    /// Whether the next token is the payload-free kind `k`.
    fn check(&self, k: TokenKind) -> (r: bool)
        requires
            self.wf(),
        ensures
            r == is_at(self.tokens@, self.pos as int, k),
    {
        is_kind(&self.tokens[self.pos].kind, &k)
    }

    /// Steps past the next token, which is not the final `Eof`.
    fn advance(&mut self)
        requires
            old(self).wf(),
            old(self).tokens@[old(self).pos as int].kind@ != KindModel::Plain(TokenKind::Eof),
        ensures
            final(self).wf(),
            final(self).tokens@ == old(self).tokens@,
            final(self).pos == old(self).pos + 1,
    {
        let n = self.tokens.len();
        proof {
            if self.pos + 1 >= n {
                assert(self.tokens@.last() == self.tokens@[self.pos as int]);
            }
        }
        self.pos = self.pos + 1;
    }

    /// The fault of the grammar's `fault_at` at the next token.
    fn fault_here(&self, message: String) -> (r: ParseError)
        requires
            self.wf(),
        ensures
            r.message@ == message@,
            r.line == self.tokens@[self.pos as int].line,
            r.column == self.tokens@[self.pos as int].column,
    {
        let t = &self.tokens[self.pos];
        parse_fault(message, t.line, t.column)
    }

    /// `expected WHAT, found TOKEN` at the next token.
    fn expected_here(&self, what: &str) -> (r: ParseError)
        requires
            self.wf(),
        ensures
            r.message@ == expected_at(self.tokens@, self.pos as int, what@).0,
            r.line == expected_at(self.tokens@, self.pos as int, what@).1,
            r.column == expected_at(self.tokens@, self.pos as int, what@).2,
    {
        let mut message = "expected ".to_owned();
        push_str(&mut message, what);
        push_str(&mut message, ", found ");
        let found = token_text_of(&self.tokens[self.pos].kind);
        push_str(&mut message, found.as_str());
        self.fault_here(message)
    }

    /// Consumes a token of kind `k`, by the rules of `expect_at`.
    fn expect(&mut self, k: TokenKind, what: &str) -> (r: Result<(), ParseError>)
        requires
            old(self).wf(),
            k != TokenKind::Eof,
        ensures
            final(self).wf(),
            final(self).tokens@ == old(self).tokens@,
            match expect_at(old(self).tokens@, old(self).pos as int, k, what@) {
                Ok(q) => r is Ok && final(self).pos == q,
                Err(f) => r matches Err(e) && e.message@ == f.0 && e.line == f.1 && e.column == f.2,
            },
    {
        if self.check(k) {
            self.advance();
            Ok(())
        } else {
            Err(self.expected_here(what))
        }
    }

    /// The identifier at the next token, consumed, by the rules of `ident_at`.
    fn expect_ident(&mut self) -> (r: Result<String, ParseError>)
        requires
            old(self).wf(),
        ensures
            final(self).wf(),
            final(self).tokens@ == old(self).tokens@,
            match ident_at(old(self).tokens@, old(self).pos as int) {
                Ok(s) => r matches Ok(v) && v@ == s && final(self).pos == old(self).pos + 1,
                Err(f) => r matches Err(e) && e.message@ == f.0 && e.line == f.1 && e.column == f.2,
            },
    {
        let name = match &self.tokens[self.pos].kind {
            TokenKind::Ident(s) => s.clone(),
            k => {
                let mut message = "expected identifier, found ".to_owned();
                let found = token_text_of(k);
                push_str(&mut message, found.as_str());
                return Err(self.fault_here(message));
            },
        };
        self.advance();
        Ok(name)
    }

    /// A type annotation, by the rules of `type_ann`.
    fn parse_type_annotation(&mut self) -> (r: Result<TypeAnnotation, ParseError>)
        requires
            old(self).wf(),
        ensures
            final(self).wf(),
            final(self).tokens@ == old(self).tokens@,
            agrees_parse(r, type_ann(old(self).tokens@, old(self).pos as int), final(self).pos, |a: TypeAnnotation| ann_view(a)),
            r is Ok ==> final(self).pos > old(self).pos,
        decreases tokens_left(old(self).tokens@, old(self).pos as int),
    {
        let line = self.tokens[self.pos].line;
        let column = self.tokens[self.pos].column;
        let name = match self.expect_ident() {
            Ok(n) => n,
            Err(e) => {
                return Err(e);
            },
        };
        if str_eq(name.as_str(), "Ptr") {
            match self.expect(TokenKind::Lt, "`<`") {
                Ok(_) => {},
                Err(e) => {
                    return Err(e);
                },
            }
            let inner = match self.parse_type_annotation() {
                Ok(a) => a,
                Err(e) => {
                    return Err(e);
                },
            };
            match self.expect(TokenKind::Gt, "`>`") {
                Ok(_) => {},
                Err(e) => {
                    return Err(e);
                },
            }
            let mut full = "Ptr<".to_owned();
            push_str(&mut full, inner.name.as_str());
            push_str(&mut full, ">");
            return Ok(TypeAnnotation { name: full, line, column });
        }
        let canonical = normalize_type_alias(name.as_str());
        Ok(TypeAnnotation { name: canonical.to_owned(), line, column })
    }
}


impl Parser {
    /// The operator of binary level `level` that the next token stands for.
    fn level_op_here(&self, level: usize) -> (r: Option<BinOp>)
        requires
            self.wf(),
            level < 3,
        ensures
            r == level_op(level as nat, kind_at(self.tokens@, self.pos as int)),
    {
        match &self.tokens[self.pos].kind {
            TokenKind::EqEq => if level == 0 { Some(BinOp::Eq) } else { None },
            TokenKind::NotEq => if level == 0 { Some(BinOp::NotEq) } else { None },
            TokenKind::Lt => if level == 0 { Some(BinOp::Lt) } else { None },
            TokenKind::Gt => if level == 0 { Some(BinOp::Gt) } else { None },
            TokenKind::LtEq => if level == 0 { Some(BinOp::LtEq) } else { None },
            TokenKind::GtEq => if level == 0 { Some(BinOp::GtEq) } else { None },
            TokenKind::Plus => if level == 1 { Some(BinOp::Add) } else { None },
            TokenKind::Minus => if level == 1 { Some(BinOp::Sub) } else { None },
            TokenKind::Star => if level == 2 { Some(BinOp::Mul) } else { None },
            TokenKind::Slash => if level == 2 { Some(BinOp::Div) } else { None },
            _ => None,
        }
    }

    /// An expression, by the rules of `expr`.
    fn parse_expr(&mut self) -> (r: Result<Expr, ParseError>)
        requires
            old(self).wf(),
        ensures
            final(self).wf(),
            final(self).tokens@ == old(self).tokens@,
            agrees_parse(r, expr(old(self).tokens@, old(self).pos as int), final(self).pos, |e: Expr| expr_view(e)),
            r is Ok ==> final(self).pos > old(self).pos,
        decreases tokens_left(old(self).tokens@, old(self).pos as int), 20nat,
    {
        self.parse_binary(0)
    }

    /// One binary level and everything tighter, by the rules of `binary`.
    fn parse_binary(&mut self, level: usize) -> (r: Result<Expr, ParseError>)
        requires
            old(self).wf(),
            level <= 3,
        ensures
            final(self).wf(),
            final(self).tokens@ == old(self).tokens@,
            agrees_parse(r, binary(old(self).tokens@, old(self).pos as int, level as nat), final(self).pos, |e: Expr| expr_view(e)),
            r is Ok ==> final(self).pos > old(self).pos,
        decreases tokens_left(old(self).tokens@, old(self).pos as int), level_rank(level as nat),
    {
        if level >= 3 {
            return self.parse_unary();
        }
        let ghost p = self.pos as int;
        let ghost ts = self.tokens@;
        let mut left = match self.parse_binary(level + 1) {
            Ok(e) => e,
            Err(e) => {
                return Err(e);
            },
        };
        loop
            invariant
                self.wf(),
                self.tokens@ == ts,
                ts == old(self).tokens@,
                p == old(self).pos as int,
                self.pos > p,
                0 <= p < ts.len(),
                level < 3,
                binary(ts, p, level as nat) == binary_chain(ts, expr_view(left), self.pos as int, level as nat),
            decreases tokens_left(ts, self.pos as int),
        {
            let op = match self.level_op_here(level) {
                None => {
                    return Ok(left);
                },
                Some(op) => op,
            };
            let line = self.tokens[self.pos].line;
            let column = self.tokens[self.pos].column;
            self.advance();
            let right = match self.parse_binary(level + 1) {
                Ok(e) => e,
                Err(e) => {
                    return Err(e);
                },
            };
            left = Expr::Binary { op, left: Box::new(left), right: Box::new(right), line, column };
        }
    }

    /// Prefix `-` over a postfix expression, by the rules of `unary`.
    fn parse_unary(&mut self) -> (r: Result<Expr, ParseError>)
        requires
            old(self).wf(),
        ensures
            final(self).wf(),
            final(self).tokens@ == old(self).tokens@,
            agrees_parse(r, unary(old(self).tokens@, old(self).pos as int), final(self).pos, |e: Expr| expr_view(e)),
            r is Ok ==> final(self).pos > old(self).pos,
        decreases tokens_left(old(self).tokens@, old(self).pos as int), 15nat,
    {
        if self.check(TokenKind::Minus) {
            let line = self.tokens[self.pos].line;
            let column = self.tokens[self.pos].column;
            self.advance();
            let e = match self.parse_unary() {
                Ok(e) => e,
                Err(e) => {
                    return Err(e);
                },
            };
            return Ok(Expr::Unary { op: UnOp::Neg, expr: Box::new(e), line, column });
        }
        let base = match self.parse_primary() {
            Ok(e) => e,
            Err(e) => {
                return Err(e);
            },
        };
        self.parse_postfix(base)
    }

    /// Any chain of indexing, field accesses and method calls after `e`,
    /// by the rules of `postfix`.
    fn parse_postfix(&mut self, e: Expr) -> (r: Result<Expr, ParseError>)
        requires
            old(self).wf(),
        ensures
            final(self).wf(),
            final(self).tokens@ == old(self).tokens@,
            agrees_parse(r, postfix(old(self).tokens@, expr_view(e), old(self).pos as int), final(self).pos, |x: Expr| expr_view(x)),
            r is Ok ==> final(self).pos >= old(self).pos,
        decreases tokens_left(old(self).tokens@, old(self).pos as int), 14nat,
    {
        let ghost p = self.pos as int;
        let ghost ts = self.tokens@;
        let ghost em = expr_view(e);
        let mut expr = e;
        loop
            invariant
                self.wf(),
                self.tokens@ == ts,
                ts == old(self).tokens@,
                p == old(self).pos as int,
                self.pos >= p,
                0 <= p < ts.len(),
                em == expr_view(e),
                postfix(ts, em, p) == postfix(ts, expr_view(expr), self.pos as int),
            decreases tokens_left(ts, self.pos as int),
        {
            let line = self.tokens[self.pos].line;
            let column = self.tokens[self.pos].column;
            if self.check(TokenKind::LBracket) {
                self.advance();
                let index = match self.parse_expr() {
                    Ok(x) => x,
                    Err(err) => {
                        return Err(err);
                    },
                };
                match self.expect(TokenKind::RBracket, "`]`") {
                    Ok(_) => {},
                    Err(err) => {
                        return Err(err);
                    },
                }
                expr = Expr::Index { array: Box::new(expr), index: Box::new(index), line, column };
            } else if self.check(TokenKind::Dot) {
                self.advance();
                let name = match self.expect_ident() {
                    Ok(n) => n,
                    Err(err) => {
                        return Err(err);
                    },
                };
                if self.check(TokenKind::LParen) {
                    self.advance();
                    let args = match self.parse_expr_list(true) {
                        Ok(a) => a,
                        Err(err) => {
                            return Err(err);
                        },
                    };
                    expr = Expr::MethodCall { object: Box::new(expr), method: name, args, line, column };
                } else {
                    expr = Expr::FieldAccess { object: Box::new(expr), field: name, line, column };
                }
            } else {
                return Ok(expr);
            }
        }
    }

    /// A literal, name, call, parenthesized expression or array literal, by
    /// the rules of `primary`.
    fn parse_primary(&mut self) -> (r: Result<Expr, ParseError>)
        requires
            old(self).wf(),
        ensures
            final(self).wf(),
            final(self).tokens@ == old(self).tokens@,
            agrees_parse(r, primary(old(self).tokens@, old(self).pos as int), final(self).pos, |e: Expr| expr_view(e)),
            r is Ok ==> final(self).pos > old(self).pos,
        decreases tokens_left(old(self).tokens@, old(self).pos as int), 13nat,
    {
        let line = self.tokens[self.pos].line;
        let column = self.tokens[self.pos].column;
        match &self.tokens[self.pos].kind {
            TokenKind::Int(v) => {
                let value = *v;
                self.advance();
                Ok(Expr::IntLit { value, line, column })
            },
            TokenKind::Float(t) => {
                let text = t.clone();
                self.advance();
                Ok(Expr::FloatLit { text, line, column })
            },
            TokenKind::Str(s) => {
                let value = s.clone();
                self.advance();
                Ok(Expr::StringLit { value, line, column })
            },
            TokenKind::Bool(b) => {
                let value = *b;
                self.advance();
                Ok(Expr::BoolLit { value, line, column })
            },
            TokenKind::Nil => {
                self.advance();
                Ok(Expr::NilLit { line, column })
            },
            TokenKind::Ident(n) => {
                let name = n.clone();
                self.advance();
                if self.check(TokenKind::LParen) {
                    self.advance();
                    let args = match self.parse_expr_list(true) {
                        Ok(a) => a,
                        Err(err) => {
                            return Err(err);
                        },
                    };
                    Ok(Expr::Call { callee: name, args, line, column })
                } else {
                    Ok(Expr::Ident { name, line, column })
                }
            },
            TokenKind::LParen => {
                self.advance();
                let inner = match self.parse_expr() {
                    Ok(x) => x,
                    Err(err) => {
                        return Err(err);
                    },
                };
                match self.expect(TokenKind::RParen, "`)`") {
                    Ok(_) => {},
                    Err(err) => {
                        return Err(err);
                    },
                }
                Ok(inner)
            },
            TokenKind::LBracket => {
                self.advance();
                let elements = match self.parse_expr_list(false) {
                    Ok(a) => a,
                    Err(err) => {
                        return Err(err);
                    },
                };
                Ok(Expr::ArrayLit { elements, line, column })
            },
            _ => Err(self.fault_here("parse/unexpected-token".to_owned())),
        }
    }

    /// A comma-separated list of expressions up to and including its
    /// closer, `)` when `paren` else `]`, by the rules of `expr_list`.
    fn parse_expr_list(&mut self, paren: bool) -> (r: Result<Vec<Expr>, ParseError>)
        requires
            old(self).wf(),
        ensures
            final(self).wf(),
            final(self).tokens@ == old(self).tokens@,
            agrees_parse(r, expr_list(old(self).tokens@, old(self).pos as int, paren), final(self).pos, |v: Vec<Expr>| exprs_view(v@)),
            r is Ok ==> final(self).pos > old(self).pos,
        decreases tokens_left(old(self).tokens@, old(self).pos as int), 22nat,
    {
        let ghost p = self.pos as int;
        let ghost ts = self.tokens@;
        let what = if paren { "`)`" } else { "`]`" };
        if self.check(if paren { TokenKind::RParen } else { TokenKind::RBracket }) {
            self.advance();
            let none: Vec<Expr> = Vec::new();
            assert(exprs_view(none@) =~= Seq::<ExprM>::empty());
            return Ok(none);
        }
        let mut items: Vec<Expr> = Vec::new();
        assert(exprs_view(items@) =~= Seq::<ExprM>::empty());
        loop
            invariant
                self.wf(),
                self.tokens@ == ts,
                ts == old(self).tokens@,
                p == old(self).pos as int,
                self.pos >= p,
                0 <= p < ts.len(),
                what@ == closer_text(paren),
                expr_list(ts, p, paren) == expr_items(ts, self.pos as int, paren, exprs_view(items@)),
            decreases tokens_left(ts, self.pos as int),
        {
            let e = match self.parse_expr() {
                Ok(x) => x,
                Err(err) => {
                    return Err(err);
                },
            };
            let ghost before = items@;
            items.push(e);
            assert(items@.drop_last() =~= before);
            if self.check(TokenKind::Comma) {
                self.advance();
            } else {
                match self.expect(if paren { TokenKind::RParen } else { TokenKind::RBracket }, what) {
                    Ok(_) => {},
                    Err(err) => {
                        return Err(err);
                    },
                }
                return Ok(items);
            }
        }
    }
}


impl Parser {
    /// Whether the next token ends a block, by `ends_block`.
    fn at_block_end(&self, branch: bool) -> (r: bool)
        requires
            self.wf(),
        ensures
            r == ends_block(self.tokens@, self.pos as int, branch),
    {
        self.check(TokenKind::End) || (branch && (self.check(TokenKind::Elsif) || self.check(TokenKind::Else)))
    }

    /// One parameter `name: Type`, by the rules of `param`.
    fn parse_param(&mut self) -> (r: Result<Param, ParseError>)
        requires
            old(self).wf(),
        ensures
            final(self).wf(),
            final(self).tokens@ == old(self).tokens@,
            agrees_parse(r, param(old(self).tokens@, old(self).pos as int), final(self).pos, |x: Param| param_view(x)),
            r is Ok ==> final(self).pos > old(self).pos,
    {
        let line = self.tokens[self.pos].line;
        let column = self.tokens[self.pos].column;
        let name = match self.expect_ident() {
            Ok(n) => n,
            Err(err) => {
                return Err(err);
            },
        };
        match self.expect(TokenKind::Colon, "`:`") {
            Ok(_) => {},
            Err(err) => {
                return Err(err);
            },
        }
        let type_ann = match self.parse_type_annotation() {
            Ok(a) => a,
            Err(err) => {
                return Err(err);
            },
        };
        Ok(Param { name, type_ann, line, column })
    }

    /// A parameter list after its `(`, by the rules of `param_list`.
    fn parse_param_list(&mut self) -> (r: Result<Vec<Param>, ParseError>)
        requires
            old(self).wf(),
        ensures
            final(self).wf(),
            final(self).tokens@ == old(self).tokens@,
            agrees_parse(r, param_list(old(self).tokens@, old(self).pos as int), final(self).pos, |v: Vec<Param>| v@.map_values(|x: Param| param_view(x))),
            r is Ok ==> final(self).pos > old(self).pos,
    {
        let ghost p = self.pos as int;
        let ghost ts = self.tokens@;
        if self.check(TokenKind::RParen) {
            self.advance();
            let none: Vec<Param> = Vec::new();
            assert(none@.map_values(|x: Param| param_view(x)) =~= Seq::<ParamM>::empty());
            return Ok(none);
        }
        let mut items: Vec<Param> = Vec::new();
        assert(items@.map_values(|x: Param| param_view(x)) =~= Seq::<ParamM>::empty());
        loop
            invariant
                self.wf(),
                self.tokens@ == ts,
                ts == old(self).tokens@,
                p == old(self).pos as int,
                self.pos >= p,
                0 <= p < ts.len(),
                param_list(ts, p) == param_items(ts, self.pos as int, items@.map_values(|x: Param| param_view(x))),
            decreases tokens_left(ts, self.pos as int),
        {
            let prm = match self.parse_param() {
                Ok(x) => x,
                Err(err) => {
                    return Err(err);
                },
            };
            let ghost before = items@.map_values(|x: Param| param_view(x));
            items.push(prm);
            assert(items@.map_values(|x: Param| param_view(x)) =~= before.push(param_view(prm)));
            if self.check(TokenKind::Comma) {
                self.advance();
            } else {
                match self.expect(TokenKind::RParen, "`)`") {
                    Ok(_) => {},
                    Err(err) => {
                        return Err(err);
                    },
                }
                return Ok(items);
            }
        }
    }

    /// An optional `: Type`, by the rules of `return_type`.
    fn parse_return_type(&mut self) -> (r: Result<Option<TypeAnnotation>, ParseError>)
        requires
            old(self).wf(),
        ensures
            final(self).wf(),
            final(self).tokens@ == old(self).tokens@,
            agrees_parse(r, return_type(old(self).tokens@, old(self).pos as int), final(self).pos, |a: Option<TypeAnnotation>| opt_ann_view(a)),
            r is Ok ==> final(self).pos >= old(self).pos,
    {
        if self.check(TokenKind::Colon) {
            self.advance();
            match self.parse_type_annotation() {
                Ok(a) => Ok(Some(a)),
                Err(err) => Err(err),
            }
        } else {
            Ok(None)
        }
    }

    /// A statement, by the rules of `stmt`.
    fn parse_stmt(&mut self) -> (r: Result<Stmt, ParseError>)
        requires
            old(self).wf(),
        ensures
            final(self).wf(),
            final(self).tokens@ == old(self).tokens@,
            agrees_parse(r, stmt(old(self).tokens@, old(self).pos as int), final(self).pos, |s: Stmt| stmt_view(s)),
            r is Ok ==> final(self).pos > old(self).pos,
        decreases tokens_left(old(self).tokens@, old(self).pos as int), 30nat,
    {
        match &self.tokens[self.pos].kind {
            TokenKind::Def => self.parse_function_def(),
            TokenKind::Const => self.parse_const_decl(),
            TokenKind::Class => self.parse_class(),
            TokenKind::Import => self.parse_import(),
            TokenKind::Return => self.parse_return(),
            TokenKind::If => self.parse_if(),
            TokenKind::While => self.parse_while(),
            TokenKind::For => self.parse_for(),
            TokenKind::Ident(_) => self.parse_ident_stmt(),
            _ => match self.parse_expr() {
                Ok(e) => Ok(Stmt::ExprStmt(e)),
                Err(err) => Err(err),
            },
        }
    }

    /// The statements of a block up to a token that ends it, by the rules of `block`.
    fn parse_block(&mut self, branch: bool) -> (r: Result<Vec<Stmt>, ParseError>)
        requires
            old(self).wf(),
        ensures
            final(self).wf(),
            final(self).tokens@ == old(self).tokens@,
            agrees_parse(r, block(old(self).tokens@, old(self).pos as int, branch, Seq::empty()), final(self).pos, |v: Vec<Stmt>| stmts_view(v@)),
            r is Ok ==> final(self).pos >= old(self).pos,
        decreases tokens_left(old(self).tokens@, old(self).pos as int), 31nat,
    {
        let ghost p = self.pos as int;
        let ghost ts = self.tokens@;
        let mut items: Vec<Stmt> = Vec::new();
        assert(stmts_view(items@) =~= Seq::<StmtM>::empty());
        loop
            invariant
                self.wf(),
                self.tokens@ == ts,
                ts == old(self).tokens@,
                p == old(self).pos as int,
                self.pos >= p,
                0 <= p < ts.len(),
                block(ts, p, branch, Seq::empty()) == block(ts, self.pos as int, branch, stmts_view(items@)),
            decreases tokens_left(ts, self.pos as int),
        {
            if self.at_block_end(branch) {
                return Ok(items);
            }
            if self.check(TokenKind::Eof) {
                return Err(self.fault_here("unexpected end of input, expected `end`".to_owned()));
            }
            let s = match self.parse_stmt() {
                Ok(s) => s,
                Err(err) => {
                    return Err(err);
                },
            };
            let ghost before = items@;
            items.push(s);
            assert(items@.drop_last() =~= before);
        }
    }

    /// `def name(params)[: Type] body end`, by the rules of `function_def`.
    fn parse_function_def(&mut self) -> (r: Result<Stmt, ParseError>)
        requires
            old(self).wf(),
            is_at(old(self).tokens@, old(self).pos as int, TokenKind::Def),
        ensures
            final(self).wf(),
            final(self).tokens@ == old(self).tokens@,
            agrees_parse(r, function_def(old(self).tokens@, old(self).pos as int), final(self).pos, |s: Stmt| stmt_view(s)),
            r is Ok ==> final(self).pos > old(self).pos,
        decreases tokens_left(old(self).tokens@, old(self).pos as int), 25nat,
    {
        let line = self.tokens[self.pos].line;
        let column = self.tokens[self.pos].column;
        self.advance();
        let name = match self.expect_ident() {
            Ok(n) => n,
            Err(err) => {
                return Err(err);
            },
        };
        match self.expect(TokenKind::LParen, "`(`") {
            Ok(_) => {},
            Err(err) => {
                return Err(err);
            },
        }
        let params = match self.parse_param_list() {
            Ok(ps) => ps,
            Err(err) => {
                return Err(err);
            },
        };
        let return_type = match self.parse_return_type() {
            Ok(t) => t,
            Err(err) => {
                return Err(err);
            },
        };
        let body = match self.parse_block(false) {
            Ok(b) => b,
            Err(err) => {
                return Err(err);
            },
        };
        match self.expect(TokenKind::End, "`end`") {
            Ok(_) => {},
            Err(err) => {
                return Err(err);
            },
        }
        Ok(Stmt::FunctionDef { name, params, return_type, body, line, column })
    }

    /// `const NAME[: Type] = value`, by the rules of `const_decl`.
    fn parse_const_decl(&mut self) -> (r: Result<Stmt, ParseError>)
        requires
            old(self).wf(),
            is_at(old(self).tokens@, old(self).pos as int, TokenKind::Const),
        ensures
            final(self).wf(),
            final(self).tokens@ == old(self).tokens@,
            agrees_parse(r, const_decl(old(self).tokens@, old(self).pos as int), final(self).pos, |s: Stmt| stmt_view(s)),
            r is Ok ==> final(self).pos > old(self).pos,
    {
        let line = self.tokens[self.pos].line;
        let column = self.tokens[self.pos].column;
        self.advance();
        let name = match self.expect_ident() {
            Ok(n) => n,
            Err(err) => {
                return Err(err);
            },
        };
        let type_ann = match self.parse_return_type() {
            Ok(t) => t,
            Err(err) => {
                return Err(err);
            },
        };
        match self.expect(TokenKind::Eq, "`=`") {
            Ok(_) => {},
            Err(err) => {
                return Err(err);
            },
        }
        let value = match self.parse_expr() {
            Ok(e) => e,
            Err(err) => {
                return Err(err);
            },
        };
        Ok(Stmt::ConstDecl { name, type_ann, value, line, column })
    }

    /// `import "path"`, by the rules of `import_stmt`.
    fn parse_import(&mut self) -> (r: Result<Stmt, ParseError>)
        requires
            old(self).wf(),
            is_at(old(self).tokens@, old(self).pos as int, TokenKind::Import),
        ensures
            final(self).wf(),
            final(self).tokens@ == old(self).tokens@,
            agrees_parse(r, import_stmt(old(self).tokens@, old(self).pos as int), final(self).pos, |s: Stmt| stmt_view(s)),
            r is Ok ==> final(self).pos > old(self).pos,
    {
        let line = self.tokens[self.pos].line;
        let column = self.tokens[self.pos].column;
        self.advance();
        let path = match &self.tokens[self.pos].kind {
            TokenKind::Str(s) => s.clone(),
            k => {
                let mut message = "expected string literal after `import`, found ".to_owned();
                let found = token_text_of(k);
                push_str(&mut message, found.as_str());
                return Err(self.fault_here(message));
            },
        };
        self.advance();
        Ok(Stmt::Import { path, line, column })
    }

    /// `return [value]`, by the rules of `return_stmt`.
    fn parse_return(&mut self) -> (r: Result<Stmt, ParseError>)
        requires
            old(self).wf(),
            is_at(old(self).tokens@, old(self).pos as int, TokenKind::Return),
        ensures
            final(self).wf(),
            final(self).tokens@ == old(self).tokens@,
            agrees_parse(r, return_stmt(old(self).tokens@, old(self).pos as int), final(self).pos, |s: Stmt| stmt_view(s)),
            r is Ok ==> final(self).pos > old(self).pos,
    {
        let line = self.tokens[self.pos].line;
        let column = self.tokens[self.pos].column;
        self.advance();
        if self.check(TokenKind::End) || self.check(TokenKind::Eof) {
            return Ok(Stmt::Return { value: None, line, column });
        }
        match self.parse_expr() {
            Ok(e) => Ok(Stmt::Return { value: Some(e), line, column }),
            Err(err) => Err(err),
        }
    }

    /// `while cond body end`, by the rules of `while_stmt`.
    fn parse_while(&mut self) -> (r: Result<Stmt, ParseError>)
        requires
            old(self).wf(),
            is_at(old(self).tokens@, old(self).pos as int, TokenKind::While),
        ensures
            final(self).wf(),
            final(self).tokens@ == old(self).tokens@,
            agrees_parse(r, while_stmt(old(self).tokens@, old(self).pos as int), final(self).pos, |s: Stmt| stmt_view(s)),
            r is Ok ==> final(self).pos > old(self).pos,
        decreases tokens_left(old(self).tokens@, old(self).pos as int), 25nat,
    {
        let line = self.tokens[self.pos].line;
        let column = self.tokens[self.pos].column;
        self.advance();
        let condition = match self.parse_expr() {
            Ok(e) => e,
            Err(err) => {
                return Err(err);
            },
        };
        let body = match self.parse_block(false) {
            Ok(b) => b,
            Err(err) => {
                return Err(err);
            },
        };
        match self.expect(TokenKind::End, "`end`") {
            Ok(_) => {},
            Err(err) => {
                return Err(err);
            },
        }
        Ok(Stmt::While { condition, body, line, column })
    }

    /// `for name in start..end body end`, by the rules of `for_stmt`.
    fn parse_for(&mut self) -> (r: Result<Stmt, ParseError>)
        requires
            old(self).wf(),
            is_at(old(self).tokens@, old(self).pos as int, TokenKind::For),
        ensures
            final(self).wf(),
            final(self).tokens@ == old(self).tokens@,
            agrees_parse(r, for_stmt(old(self).tokens@, old(self).pos as int), final(self).pos, |s: Stmt| stmt_view(s)),
            r is Ok ==> final(self).pos > old(self).pos,
        decreases tokens_left(old(self).tokens@, old(self).pos as int), 25nat,
    {
        let line = self.tokens[self.pos].line;
        let column = self.tokens[self.pos].column;
        self.advance();
        let var_name = match self.expect_ident() {
            Ok(n) => n,
            Err(err) => {
                return Err(err);
            },
        };
        match self.expect(TokenKind::In, "`in`") {
            Ok(_) => {},
            Err(err) => {
                return Err(err);
            },
        }
        let range_start = match self.parse_binary(1) {
            Ok(e) => e,
            Err(err) => {
                return Err(err);
            },
        };
        match self.expect(TokenKind::DotDot, "`..`") {
            Ok(_) => {},
            Err(err) => {
                return Err(err);
            },
        }
        let range_end = match self.parse_binary(1) {
            Ok(e) => e,
            Err(err) => {
                return Err(err);
            },
        };
        let body = match self.parse_block(false) {
            Ok(b) => b,
            Err(err) => {
                return Err(err);
            },
        };
        match self.expect(TokenKind::End, "`end`") {
            Ok(_) => {},
            Err(err) => {
                return Err(err);
            },
        }
        Ok(Stmt::For { var_name, range_start, range_end, body, line, column })
    }
}


impl Parser {
    /// `if cond body [elsif cond body]* [else body] end`, by the rules of `if_stmt`.
    fn parse_if(&mut self) -> (r: Result<Stmt, ParseError>)
        requires
            old(self).wf(),
            is_at(old(self).tokens@, old(self).pos as int, TokenKind::If),
        ensures
            final(self).wf(),
            final(self).tokens@ == old(self).tokens@,
            agrees_parse(r, if_stmt(old(self).tokens@, old(self).pos as int), final(self).pos, |s: Stmt| stmt_view(s)),
            r is Ok ==> final(self).pos > old(self).pos,
        decreases tokens_left(old(self).tokens@, old(self).pos as int), 25nat,
    {
        let ghost p = self.pos as int;
        let ghost ts = self.tokens@;
        let line = self.tokens[self.pos].line;
        let column = self.tokens[self.pos].column;
        self.advance();
        let condition = match self.parse_expr() {
            Ok(e) => e,
            Err(err) => {
                return Err(err);
            },
        };
        let then_body = match self.parse_block(true) {
            Ok(b) => b,
            Err(err) => {
                return Err(err);
            },
        };
        let (elsif_branches, else_body) = match self.parse_if_rest() {
            Ok(x) => x,
            Err(err) => {
                return Err(err);
            },
        };
        Ok(Stmt::If { condition, then_body, elsif_branches, else_body, line, column })
    }

    /// After an `if`'s first body: its `elsif` branches, its optional
    /// `else` body and the closing `end`, by the rules of `if_rest`.
    fn parse_if_rest(&mut self) -> (r: Result<(Vec<(Expr, Vec<Stmt>)>, Option<Vec<Stmt>>), ParseError>)
        requires
            old(self).wf(),
        ensures
            final(self).wf(),
            final(self).tokens@ == old(self).tokens@,
            match if_rest(old(self).tokens@, old(self).pos as int, Seq::empty()) {
                Ok((branches, else_body, q)) => r matches Ok((b, e)) && branches_view(b@) == branches
                    && match e {
                        Some(v) => else_body == Some(stmts_view(v@)),
                        None => else_body is None,
                    } && final(self).pos == q,
                Err(f) => r matches Err(e) && e.message@ == f.0 && e.line == f.1 && e.column == f.2,
            },
            r is Ok ==> final(self).pos > old(self).pos,
        decreases tokens_left(old(self).tokens@, old(self).pos as int), 26nat,
    {
        let ghost p = self.pos as int;
        let ghost ts = self.tokens@;
        let mut branches: Vec<(Expr, Vec<Stmt>)> = Vec::new();
        assert(branches_view(branches@) =~= Seq::<(ExprM, Seq<StmtM>)>::empty());
        while self.check(TokenKind::Elsif)
            invariant
                self.wf(),
                self.tokens@ == ts,
                ts == old(self).tokens@,
                p == old(self).pos as int,
                self.pos >= p,
                0 <= p < ts.len(),
                if_rest(ts, p, Seq::empty()) == if_rest(ts, self.pos as int, branches_view(branches@)),
            decreases tokens_left(ts, self.pos as int),
        {
            self.advance();
            let cond = match self.parse_expr() {
                Ok(e) => e,
                Err(err) => {
                    return Err(err);
                },
            };
            let body = match self.parse_block(true) {
                Ok(b) => b,
                Err(err) => {
                    return Err(err);
                },
            };
            let ghost before = branches@;
            branches.push((cond, body));
            assert(branches@.drop_last() =~= before);
        }
        let else_body = if self.check(TokenKind::Else) {
            self.advance();
            let b = match self.parse_block(false) {
                Ok(b) => b,
                Err(err) => {
                    return Err(err);
                },
            };
            Some(b)
        } else {
            None
        };
        match self.expect(TokenKind::End, "`end`") {
            Ok(_) => {},
            Err(err) => {
                return Err(err);
            },
        }
        Ok((branches, else_body))
    }

    /// `class Name [< Parent]` members `end`, by the rules of `class_def`.
    fn parse_class(&mut self) -> (r: Result<Stmt, ParseError>)
        requires
            old(self).wf(),
            is_at(old(self).tokens@, old(self).pos as int, TokenKind::Class),
        ensures
            final(self).wf(),
            final(self).tokens@ == old(self).tokens@,
            agrees_parse(r, class_def(old(self).tokens@, old(self).pos as int), final(self).pos, |s: Stmt| stmt_view(s)),
            r is Ok ==> final(self).pos > old(self).pos,
        decreases tokens_left(old(self).tokens@, old(self).pos as int), 25nat,
    {
        let ghost p = self.pos as int;
        let ghost ts = self.tokens@;
        let line = self.tokens[self.pos].line;
        let column = self.tokens[self.pos].column;
        self.advance();
        let name = match self.expect_ident() {
            Ok(n) => n,
            Err(err) => {
                return Err(err);
            },
        };
        let parent = if self.check(TokenKind::Lt) {
            self.advance();
            match self.expect_ident() {
                Ok(n) => Some(n),
                Err(err) => {
                    return Err(err);
                },
            }
        } else {
            None
        };
        let ghost parent_view = match &parent {
            Some(s) => Some(s@),
            None => None,
        };
        let mut consts: Vec<Stmt> = Vec::new();
        let mut fields: Vec<FieldDecl> = Vec::new();
        let mut methods: Vec<Stmt> = Vec::new();
        assert(stmts_view(consts@) =~= Seq::<StmtM>::empty());
        assert(fields@.map_values(|f: FieldDecl| field_view(f)) =~= Seq::<ParamM>::empty());
        loop
            invariant
                self.wf(),
                self.tokens@ == ts,
                ts == old(self).tokens@,
                p == old(self).pos as int,
                self.pos > p,
                0 <= p < ts.len(),
                line == ts[p].line,
                column == ts[p].column,
                parent_view == match &parent {
                    Some(s) => Some(s@),
                    None => None::<Seq<char>>,
                },
                class_def(ts, p) == class_members(
                    ts,
                    self.pos as int,
                    name@,
                    parent_view,
                    stmts_view(consts@),
                    fields@.map_values(|f: FieldDecl| field_view(f)),
                    stmts_view(methods@),
                    p,
                ),
            decreases tokens_left(ts, self.pos as int),
        {
            if self.check(TokenKind::End) {
                self.advance();
                return Ok(Stmt::ClassDef { name, parent, consts, fields, methods, line, column });
            }
            let fline = self.tokens[self.pos].line;
            let fcolumn = self.tokens[self.pos].column;
            match &self.tokens[self.pos].kind {
                TokenKind::Eof => {
                    return Err(self.fault_here("unexpected end of input, expected `end`".to_owned()));
                },
                TokenKind::Const => {
                    let c = match self.parse_const_decl() {
                        Ok(c) => c,
                        Err(err) => {
                            return Err(err);
                        },
                    };
                    let ghost before = consts@;
                    consts.push(c);
                    assert(consts@.drop_last() =~= before);
                },
                TokenKind::Def => {
                    let m = match self.parse_function_def() {
                        Ok(m) => m,
                        Err(err) => {
                            return Err(err);
                        },
                    };
                    let ghost before = methods@;
                    methods.push(m);
                    assert(methods@.drop_last() =~= before);
                },
                TokenKind::Ident(_) => {
                    let fname = match self.expect_ident() {
                        Ok(n) => n,
                        Err(err) => {
                            return Err(err);
                        },
                    };
                    match self.expect(TokenKind::Colon, "`:`") {
                        Ok(_) => {},
                        Err(err) => {
                            return Err(err);
                        },
                    }
                    let type_ann = match self.parse_type_annotation() {
                        Ok(a) => a,
                        Err(err) => {
                            return Err(err);
                        },
                    };
                    let f = FieldDecl { name: fname, type_ann, line: fline, column: fcolumn };
                    let ghost before = fields@.map_values(|f: FieldDecl| field_view(f));
                    fields.push(f);
                    assert(fields@.map_values(|f: FieldDecl| field_view(f)) =~= before.push(field_view(f)));
                },
                k => {
                    let mut message = "expected a const, field, or method declaration inside `class`, found ".to_owned();
                    let found = token_text_of(k);
                    push_str(&mut message, found.as_str());
                    return Err(self.fault_here(message));
                },
            }
        }
    }

    /// A statement that starts with an identifier, by the rules of `ident_stmt`.
    fn parse_ident_stmt(&mut self) -> (r: Result<Stmt, ParseError>)
        requires
            old(self).wf(),
            kind_at(old(self).tokens@, old(self).pos as int) is Ident,
        ensures
            final(self).wf(),
            final(self).tokens@ == old(self).tokens@,
            agrees_parse(r, ident_stmt(old(self).tokens@, old(self).pos as int), final(self).pos, |s: Stmt| stmt_view(s)),
            r is Ok ==> final(self).pos > old(self).pos,
    {
        let start = self.pos;
        let line = self.tokens[self.pos].line;
        let column = self.tokens[self.pos].column;
        let name = match self.expect_ident() {
            Ok(n) => n,
            Err(err) => {
                return Err(err);
            },
        };
        if self.check(TokenKind::Colon) {
            self.advance();
            let type_ann = match self.parse_type_annotation() {
                Ok(a) => a,
                Err(err) => {
                    return Err(err);
                },
            };
            match self.expect(TokenKind::Eq, "`=`") {
                Ok(_) => {},
                Err(err) => {
                    return Err(err);
                },
            }
            let value = match self.parse_expr() {
                Ok(e) => e,
                Err(err) => {
                    return Err(err);
                },
            };
            return Ok(Stmt::VarDecl { name, type_ann: Some(type_ann), value, line, column });
        }
        self.pos = start;
        let target = match self.parse_expr() {
            Ok(e) => e,
            Err(err) => {
                return Err(err);
            },
        };
        if self.check(TokenKind::Eq) {
            self.advance();
            let value = match self.parse_expr() {
                Ok(e) => e,
                Err(err) => {
                    return Err(err);
                },
            };
            return match target {
                Expr::Ident { name, line, column } => Ok(Stmt::VarDecl { name, type_ann: None, value, line, column }),
                Expr::FieldAccess { object, field, line, column } => Ok(
                    Stmt::FieldAssign { object: *object, field, value, line, column },
                ),
                other => {
                    proof { crate::syntax::lemma_view_pos(other); }
                    Err(parse_fault("invalid assignment target".to_owned(), other.line(), other.column()))
                },
            };
        }
        Ok(Stmt::ExprStmt(target))
    }

    /// Every statement up to the end of input, by the rules of `program_from`;
    /// from a new parser, the whole program by `program`.
    pub fn parse_program(&mut self) -> (r: Result<Vec<Stmt>, ParseError>)
        requires
            old(self).wf(),
        ensures
            match program_from(old(self).toks(), old(self).at(), Seq::empty()) {
                Ok(stmts) => r matches Ok(v) && stmts_view(v@) == stmts,
                Err(f) => r matches Err(e) && e.message@ == f.0 && e.line == f.1 && e.column == f.2,
            },
    {
        let ghost p = self.pos as int;
        let ghost ts = self.tokens@;
        let mut items: Vec<Stmt> = Vec::new();
        assert(stmts_view(items@) =~= Seq::<StmtM>::empty());
        loop
            invariant
                self.wf(),
                self.tokens@ == ts,
                ts == old(self).tokens@,
                p == old(self).pos as int,
                program_from(ts, p, Seq::empty()) == program_from(ts, self.pos as int, stmts_view(items@)),
            decreases tokens_left(ts, self.pos as int),
        {
            if self.check(TokenKind::Eof) {
                return Ok(items);
            }
            let s = match self.parse_stmt() {
                Ok(s) => s,
                Err(err) => {
                    return Err(err);
                },
            };
            let ghost before = items@;
            items.push(s);
            assert(items@.drop_last() =~= before);
        }
    }
}

} // verus!
