//! The tokenizer: source text to a flat list of tokens.
//!
//! The lexer walks the source one `char` at a time. Its behaviour is
//! specified as a function on the character sequence: `skip_trivia` finds
//! where the next token starts, `token_at` reads one token there, and
//! `lex_from` strings them together up to the final `Eof`. Positions are
//! 1-indexed lines and columns, themselves functions of the prefix read.

use std::rc::Rc;
use vstd::prelude::*;
use crate::text::{
    spec_is_whitespace, spec_is_alphabetic, spec_is_numeric, spec_is_ascii_digit, spec_is_ident_char,
    char_is_whitespace, char_is_alphabetic, char_is_alphanumeric, is_ascii_digit, chars_of, push_char,
    string_from_range,
};
use crate::keywords::{KeywordToken, KeywordMap, default_keywords, english_keyword_map, canonical_spelling, lemma_keyword_named};
use crate::translations::{Vocabulary, VocabModel, english_model, message_template};
use crate::messages::{substituted, views};
use crate::diagnostics::{Diagnostic, Span, Frame, frames_model, located_message, display_located};

verus! {

/// What a token is. A float literal keeps its source text (digits, a dot,
/// digits), which every reader of the token turns into a number.
#[derive(Debug, Clone, PartialEq)]
pub enum TokenKind {
    Int(i64),
    Float(String),
    Str(String),
    Bool(bool),
    Ident(String),
    Def,
    End,
    If,
    Elsif,
    Else,
    While,
    For,
    In,
    Const,
    Return,
    Nil,
    Import,
    Class,
    Plus,
    Minus,
    Star,
    Slash,
    EqEq,
    NotEq,
    Lt,
    Gt,
    LtEq,
    GtEq,
    Eq,
    Colon,
    ColonEq,
    DotDot,
    Dot,
    LParen,
    RParen,
    LBracket,
    RBracket,
    Comma,
    Eof,
}

/// The abstract value of a token kind: payloads by their views, every
/// payload-free kind as itself.
pub enum KindModel {
    Int(i64),
    Float(Seq<char>),
    Str(Seq<char>),
    Bool(bool),
    Ident(Seq<char>),
    Plain(TokenKind),
}

impl View for TokenKind {
    type V = KindModel;

    open spec fn view(&self) -> KindModel {
        match self {
            TokenKind::Int(v) => KindModel::Int(*v),
            TokenKind::Float(t) => KindModel::Float(t@),
            TokenKind::Str(s) => KindModel::Str(s@),
            TokenKind::Bool(b) => KindModel::Bool(*b),
            TokenKind::Ident(s) => KindModel::Ident(s@),
            _ => KindModel::Plain(*self),
        }
    }
}

/// A token and where it starts.
#[derive(Debug, Clone, PartialEq)]
pub struct Token {
    pub kind: TokenKind,
    pub line: usize,
    pub column: usize,
}

/// The abstract value of a token: kind, line, column.
pub open spec fn token_model(t: Token) -> (KindModel, nat, nat) {
    (t.kind@, t.line as nat, t.column as nat)
}

/// The abstract value of a token list.
pub open spec fn tokens_model(ts: Seq<Token>) -> Seq<(KindModel, nat, nat)> {
    ts.map_values(|t: Token| token_model(t))
}

/// A lexing failure at a 1-indexed line and column.
#[derive(Debug, Clone, PartialEq)]
pub struct LexError {
    pub message: String,
    pub line: usize,
    pub column: usize,
}

/// The 1-indexed line of position `p`: one more than the newlines before it.
pub open spec fn line_at(cs: Seq<char>, p: int) -> nat
    decreases p,
{
    if p <= 0 {
        1
    } else {
        line_at(cs, p - 1) + if cs[p - 1] == '\n' { 1nat } else { 0nat }
    }
}

/// The 1-indexed column of position `p`: one more than the characters
/// since the last newline before it.
pub open spec fn column_at(cs: Seq<char>, p: int) -> nat
    decreases p,
{
    if p <= 0 {
        1
    } else if cs[p - 1] == '\n' {
        1
    } else {
        column_at(cs, p - 1) + 1
    }
}

/// Lines and columns never outrun the position.
pub proof fn lemma_position_bounds(cs: Seq<char>, p: int)
    requires
        0 <= p,
    ensures
        1 <= line_at(cs, p) <= p + 1,
        1 <= column_at(cs, p) <= p + 1,
    decreases p,
{
    if p > 0 {
        lemma_position_bounds(cs, p - 1);
    }
}

/// Where the next token starts: past whitespace and `#` comments (a
/// comment runs to, not including, the end of its line).
pub open spec fn skip_trivia(cs: Seq<char>, p: int, in_comment: bool) -> int
    decreases cs.len() - p, if in_comment { 1int } else { 0int },
{
    if p < 0 || p >= cs.len() {
        p
    } else if in_comment {
        if cs[p] == '\n' {
            skip_trivia(cs, p, false)
        } else {
            skip_trivia(cs, p + 1, true)
        }
    } else if spec_is_whitespace(cs[p]) {
        skip_trivia(cs, p + 1, false)
    } else if cs[p] == '#' {
        skip_trivia(cs, p + 1, true)
    } else {
        p
    }
}

/// Skipping never moves backwards, nor past the end.
pub proof fn lemma_skip_trivia(cs: Seq<char>, p: int, in_comment: bool)
    requires
        0 <= p <= cs.len(),
    ensures
        p <= skip_trivia(cs, p, in_comment) <= cs.len(),
        skip_trivia(cs, p, in_comment) < cs.len() ==> {
            let q = skip_trivia(cs, p, in_comment);
            !spec_is_whitespace(cs[q]) && cs[q] != '#'
        },
    decreases cs.len() - p, if in_comment { 1int } else { 0int },
{
    if p < cs.len() {
        if in_comment {
            if cs[p] == '\n' {
                lemma_skip_trivia(cs, p, false);
            } else {
                lemma_skip_trivia(cs, p + 1, true);
            }
        } else if spec_is_whitespace(cs[p]) {
            lemma_skip_trivia(cs, p + 1, false);
        } else if cs[p] == '#' {
            lemma_skip_trivia(cs, p + 1, true);
        }
    }
}

/// The end of the run of ASCII digits starting at `p`.
pub open spec fn digits_end(cs: Seq<char>, p: int) -> int
    decreases cs.len() - p,
{
    if 0 <= p < cs.len() && spec_is_ascii_digit(cs[p]) {
        digits_end(cs, p + 1)
    } else {
        p
    }
}

/// The end of the run of identifier characters starting at `p`.
pub open spec fn ident_end(cs: Seq<char>, p: int) -> int
    decreases cs.len() - p,
{
    if 0 <= p < cs.len() && spec_is_ident_char(cs[p]) {
        ident_end(cs, p + 1)
    } else {
        p
    }
}

/// A run-end is at or after its start and within the text, and every
/// character it covers belongs to the run.
pub proof fn lemma_run_ends(cs: Seq<char>, p: int)
    requires
        0 <= p <= cs.len(),
    ensures
        p <= digits_end(cs, p) <= cs.len(),
        p <= ident_end(cs, p) <= cs.len(),
        forall|i: int| p <= i < digits_end(cs, p) ==> spec_is_ascii_digit(#[trigger] cs[i]),
        forall|i: int| p <= i < ident_end(cs, p) ==> spec_is_ident_char(#[trigger] cs[i]),
    decreases cs.len() - p,
{
    if p < cs.len() {
        lemma_run_ends(cs, p + 1);
    }
}

/// The value of a run of decimal digits.
pub open spec fn digits_value(ds: Seq<char>) -> int
    decreases ds.len(),
{
    if ds.len() == 0 {
        0
    } else {
        digits_value(ds.drop_last()) * 10 + (ds.last() as int - '0' as int)
    }
}

/// What can go wrong while reading one token.
pub enum LexFault {
    /// An integer literal whose value does not fit in `i64`; its text.
    InvalidInteger(Seq<char>),
    /// A string literal cut off by a newline or the end of input.
    UnterminatedString,
    /// A backslash followed by a character that is no escape.
    InvalidEscape(char),
    /// A `!` not followed by `=`.
    LoneBang,
    /// A character that starts no token.
    UnexpectedCharacter(char),
}

/// The message a fault is reported with, its prose taken from the vocabulary.
pub open spec fn fault_message(m: VocabModel, f: LexFault) -> Seq<char> {
    match f {
        LexFault::InvalidInteger(text) => substituted(message_template(m, "lex/invalid-integer-literal"@), seq![text]),
        LexFault::UnterminatedString => substituted(message_template(m, "lex/unterminated-string"@), Seq::empty()),
        LexFault::InvalidEscape(c) => substituted(message_template(m, "lex/invalid-escape-sequence"@), seq![seq![c]]),
        LexFault::LoneBang => "unexpected character `!`"@,
        LexFault::UnexpectedCharacter(c) => substituted(
            message_template(m, "lex/unexpected-character"@),
            seq![seq![c]],
        ),
    }
}

/// A number literal at `p`: digits, then a fraction when a dot is followed
/// by a digit (so `5..10` reads `5` and then a range).
pub open spec fn number_at(cs: Seq<char>, p: int) -> Result<(KindModel, int), LexFault> {
    let e = digits_end(cs, p);
    if e + 1 < cs.len() && cs[e] == '.' && spec_is_ascii_digit(cs[e + 1]) {
        let f = digits_end(cs, e + 1);
        Ok((KindModel::Float(cs.subrange(p, f)), f))
    } else if digits_value(cs.subrange(p, e)) <= i64::MAX {
        Ok((KindModel::Int(digits_value(cs.subrange(p, e)) as i64), e))
    } else {
        Err(LexFault::InvalidInteger(cs.subrange(p, e)))
    }
}

/// The character an escape letter stands for, if it is one.
pub open spec fn escaped(c: char) -> Option<char> {
    if c == 'n' {
        Some('\n')
    } else if c == 't' {
        Some('\t')
    } else if c == '"' {
        Some('"')
    } else if c == '\\' {
        Some('\\')
    } else {
        None
    }
}

/// The rest of a string literal from `p` (inside the quotes), `acc` holding
/// what was read so far: its value and the position past the closing quote.
pub open spec fn string_rest(cs: Seq<char>, p: int, acc: Seq<char>) -> Result<(Seq<char>, int), LexFault>
    decreases cs.len() - p,
{
    if p < 0 || p >= cs.len() || cs[p] == '\n' {
        Err(LexFault::UnterminatedString)
    } else if cs[p] == '"' {
        Ok((acc, p + 1))
    } else if cs[p] == '\\' {
        if p + 1 >= cs.len() {
            Err(LexFault::UnterminatedString)
        } else {
            match escaped(cs[p + 1]) {
                Some(e) => string_rest(cs, p + 2, acc.push(e)),
                None => Err(LexFault::InvalidEscape(cs[p + 1])),
            }
        }
    } else {
        string_rest(cs, p + 1, acc.push(cs[p]))
    }
}

/// A string literal ends after its start.
pub proof fn lemma_string_rest(cs: Seq<char>, p: int, acc: Seq<char>)
    requires
        0 <= p,
    ensures
        string_rest(cs, p, acc) matches Ok((_, e)) ==> p < e <= cs.len(),
    decreases cs.len() - p,
{
    if 0 <= p < cs.len() && cs[p] != '\n' && cs[p] != '"' {
        if cs[p] == '\\' {
            if p + 1 < cs.len() {
                lemma_string_rest(cs, p + 2, acc.push(cs[p + 1]));
                if let Some(e) = escaped(cs[p + 1]) {
                    lemma_string_rest(cs, p + 2, acc.push(e));
                }
            }
        } else {
            lemma_string_rest(cs, p + 1, acc.push(cs[p]));
        }
    }
}

/// The token kind a keyword reads as.
pub open spec fn keyword_kind(t: KeywordToken) -> KindModel {
    match t {
        KeywordToken::Def => KindModel::Plain(TokenKind::Def),
        KeywordToken::End => KindModel::Plain(TokenKind::End),
        KeywordToken::If => KindModel::Plain(TokenKind::If),
        KeywordToken::Elsif => KindModel::Plain(TokenKind::Elsif),
        KeywordToken::Else => KindModel::Plain(TokenKind::Else),
        KeywordToken::While => KindModel::Plain(TokenKind::While),
        KeywordToken::For => KindModel::Plain(TokenKind::For),
        KeywordToken::In => KindModel::Plain(TokenKind::In),
        KeywordToken::Const => KindModel::Plain(TokenKind::Const),
        KeywordToken::Return => KindModel::Plain(TokenKind::Return),
        KeywordToken::Nil => KindModel::Plain(TokenKind::Nil),
        KeywordToken::Import => KindModel::Plain(TokenKind::Import),
        KeywordToken::Class => KindModel::Plain(TokenKind::Class),
        KeywordToken::True => KindModel::Bool(true),
        KeywordToken::False => KindModel::Bool(false),
    }
}

/// A word: a keyword when the table spells one so, else an identifier.
pub open spec fn word_kind(keywords: Map<Seq<char>, KeywordToken>, text: Seq<char>) -> KindModel {
    if keywords.contains_key(text) {
        keyword_kind(keywords[text])
    } else {
        KindModel::Ident(text)
    }
}

/// A one- or two-character operator: the longest that matches.
pub open spec fn operator_at(cs: Seq<char>, p: int) -> Result<(KindModel, int), LexFault> {
    let c = cs[p];
    let next_is = |d: char| p + 1 < cs.len() && cs[p + 1] == d;
    if c == '+' {
        Ok((KindModel::Plain(TokenKind::Plus), p + 1))
    } else if c == '-' {
        Ok((KindModel::Plain(TokenKind::Minus), p + 1))
    } else if c == '*' {
        Ok((KindModel::Plain(TokenKind::Star), p + 1))
    } else if c == '/' {
        Ok((KindModel::Plain(TokenKind::Slash), p + 1))
    } else if c == '(' {
        Ok((KindModel::Plain(TokenKind::LParen), p + 1))
    } else if c == ')' {
        Ok((KindModel::Plain(TokenKind::RParen), p + 1))
    } else if c == '[' {
        Ok((KindModel::Plain(TokenKind::LBracket), p + 1))
    } else if c == ']' {
        Ok((KindModel::Plain(TokenKind::RBracket), p + 1))
    } else if c == ',' {
        Ok((KindModel::Plain(TokenKind::Comma), p + 1))
    } else if c == '=' {
        if next_is('=') {
            Ok((KindModel::Plain(TokenKind::EqEq), p + 2))
        } else {
            Ok((KindModel::Plain(TokenKind::Eq), p + 1))
        }
    } else if c == '!' {
        if next_is('=') {
            Ok((KindModel::Plain(TokenKind::NotEq), p + 2))
        } else {
            Err(LexFault::LoneBang)
        }
    } else if c == '<' {
        if next_is('=') {
            Ok((KindModel::Plain(TokenKind::LtEq), p + 2))
        } else {
            Ok((KindModel::Plain(TokenKind::Lt), p + 1))
        }
    } else if c == '>' {
        if next_is('=') {
            Ok((KindModel::Plain(TokenKind::GtEq), p + 2))
        } else {
            Ok((KindModel::Plain(TokenKind::Gt), p + 1))
        }
    } else if c == ':' {
        if next_is('=') {
            Ok((KindModel::Plain(TokenKind::ColonEq), p + 2))
        } else {
            Ok((KindModel::Plain(TokenKind::Colon), p + 1))
        }
    } else if c == '.' {
        if next_is('.') {
            Ok((KindModel::Plain(TokenKind::DotDot), p + 2))
        } else {
            Ok((KindModel::Plain(TokenKind::Dot), p + 1))
        }
    } else {
        Err(LexFault::UnexpectedCharacter(c))
    }
}

/// The token starting at `p` (a position holding a character), chosen by
/// that character: a digit starts a number, `"` a string, a letter or `_`
/// a word, anything else an operator.
pub open spec fn token_at(cs: Seq<char>, p: int, keywords: Map<Seq<char>, KeywordToken>) -> Result<(KindModel, int), LexFault> {
    let c = cs[p];
    if spec_is_ascii_digit(c) {
        number_at(cs, p)
    } else if c == '"' {
        match string_rest(cs, p + 1, Seq::empty()) {
            Ok((v, e)) => Ok((KindModel::Str(v), e)),
            Err(f) => Err(f),
        }
    } else if spec_is_alphabetic(c) || c == '_' {
        let e = ident_end(cs, p);
        Ok((word_kind(keywords, cs.subrange(p, e)), e))
    } else {
        operator_at(cs, p)
    }
}

/// Every token read consumes at least its first character, and stays within the text.
pub proof fn lemma_token_advances(cs: Seq<char>, p: int, keywords: Map<Seq<char>, KeywordToken>)
    requires
        0 <= p < cs.len(),
    ensures
        token_at(cs, p, keywords) matches Ok((_, e)) ==> p < e <= cs.len(),
{
    lemma_run_ends(cs, p);
    let e = digits_end(cs, p);
    if 0 <= e {
        if e <= cs.len() {
            lemma_run_ends(cs, e);
        }
    }
    if e + 1 < cs.len() {
        lemma_run_ends(cs, e + 1);
    }
    lemma_string_rest(cs, p + 1, Seq::empty());
}

/// Every token from `p` on, ending with `Eof` at the end of the text, or
/// the first fault and the position of the token it struck.
pub open spec fn lex_from(cs: Seq<char>, p: int, keywords: Map<Seq<char>, KeywordToken>) -> Result<Seq<(KindModel, nat, nat)>, (LexFault, int)>
    decreases cs.len() - p,
{
    if p < 0 || p > cs.len() {
        Ok(Seq::empty())
    } else {
        let q = skip_trivia(cs, p, false);
        proof { lemma_skip_trivia(cs, p, false); }
        if q >= cs.len() {
            Ok(seq![(KindModel::Plain(TokenKind::Eof), line_at(cs, q), column_at(cs, q))])
        } else {
            proof { lemma_token_advances(cs, q, keywords); }
            match token_at(cs, q, keywords) {
                Err(f) => Err((f, q)),
                Ok((k, e)) => match lex_from(cs, e, keywords) {
                    Ok(rest) => Ok(seq![(k, line_at(cs, q), column_at(cs, q))] + rest),
                    Err(x) => Err(x),
                },
            }
        }
    }
}

/// The value of the decimal digits `cs[start..end]`, or `None` when it does
/// not fit in `i64`.
pub fn parse_digits(cs: &Vec<char>, start: usize, end: usize) -> (r: Option<i64>)
    requires
        start <= end <= cs@.len(),
        forall|i: int| start <= i < end ==> spec_is_ascii_digit(#[trigger] cs@[i]),
    ensures
        r is Some <==> digits_value(cs@.subrange(start as int, end as int)) <= i64::MAX,
        r matches Some(v) ==> v == digits_value(cs@.subrange(start as int, end as int)),
{
    let mut value: i64 = 0;
    let mut overflow = false;
    let mut i = start;
    assert(cs@.subrange(start as int, start as int) =~= Seq::<char>::empty());
    while i < end
        invariant
            start <= i <= end <= cs@.len(),
            forall|k: int| start <= k < end ==> spec_is_ascii_digit(#[trigger] cs@[k]),
            digits_value(cs@.subrange(start as int, i as int)) >= 0,
            !overflow ==> value == digits_value(cs@.subrange(start as int, i as int)),
            overflow ==> digits_value(cs@.subrange(start as int, i as int)) > i64::MAX,
        decreases end - i,
    {
        let c = cs[i];
        let d: i64 = (c as u32 - '0' as u32) as i64;
        let ghost before = cs@.subrange(start as int, i as int);
        let ghost after = cs@.subrange(start as int, i + 1);
        assert(after.drop_last() =~= before);
        assert(after.last() == c);
        assert(digits_value(after) == digits_value(before) * 10 + d);
        if !overflow {
            match value.checked_mul(10) {
                Some(m) => match m.checked_add(d) {
                    Some(v) => {
                        value = v;
                    },
                    None => {
                        overflow = true;
                    },
                },
                None => {
                    overflow = true;
                },
            }
        }
        i = i + 1;
    }
    if overflow {
        None
    } else {
        Some(value)
    }
}

/// `rest` with `prefix` put before its tokens; a fault passes through.
pub open spec fn after_prefix(
    prefix: Seq<(KindModel, nat, nat)>,
    rest: Result<Seq<(KindModel, nat, nat)>, (LexFault, int)>,
) -> Result<Seq<(KindModel, nat, nat)>, (LexFault, int)> {
    match rest {
        Ok(ts) => Ok(prefix + ts),
        Err(x) => Err(x),
    }
}

/// Walks a source text one `char` at a time and turns it into tokens.
pub struct Lexer {
    chars: Vec<char>,
    pos: usize,
    line: usize,
    column: usize,
    keywords: KeywordMap,
    vocab: Rc<Vocabulary>,
}

impl Lexer {
    /// The source text.
    pub closed spec fn source(&self) -> Seq<char> {
        self.chars@
    }

    /// The position of the next character to read.
    pub closed spec fn position(&self) -> int {
        self.pos as int
    }

    /// The keyword table in use.
    pub closed spec fn keyword_table(&self) -> Map<Seq<char>, KeywordToken> {
        self.keywords@
    }

    /// The vocabulary error messages are worded in.
    pub closed spec fn vocab_model(&self) -> VocabModel {
        self.vocab.model()
    }

    /// The position is within the text, the line and column are those of
    /// the position, and the text is short enough for every column to fit.
    pub closed spec fn wf(&self) -> bool {
        &&& self.pos <= self.chars@.len()
        &&& self.chars@.len() < usize::MAX
        &&& self.line == line_at(self.chars@, self.pos as int)
        &&& self.column == column_at(self.chars@, self.pos as int)
    }

    /// A lexer at the very start of `source`, with the English keywords.
    pub fn new(source: &str) -> (r: Lexer)
        requires
            source@.len() < usize::MAX,
        ensures
            r.wf(),
            r.source() == source@,
            r.position() == 0,
            r.keyword_table() == english_keyword_map(),
            r.vocab_model() == english_model(),
    {
        Self::with_keywords(source, default_keywords())
    }

    /// A lexer recognizing `keywords` (source spelling to keyword) in place of
    /// the English spellings; its error messages stay English.
    pub fn with_keywords(source: &str, keywords: KeywordMap) -> (r: Lexer)
        requires
            source@.len() < usize::MAX,
        ensures
            r.wf(),
            r.source() == source@,
            r.position() == 0,
            r.keyword_table() == keywords@,
            r.vocab_model() == english_model(),
    {
        Lexer {
            chars: chars_of(source),
            pos: 0,
            line: 1,
            column: 1,
            keywords,
            vocab: Rc::new(Vocabulary::english()),
        }
    }

    /// A lexer taking both its keywords and its error wording from `vocab`.
    pub fn with_vocabulary(source: &str, vocab: Rc<Vocabulary>) -> (r: Lexer)
        requires
            source@.len() < usize::MAX,
        ensures
            r.wf(),
            r.source() == source@,
            r.position() == 0,
            r.keyword_table() == vocab.model().keywords,
            r.vocab_model() == vocab.model(),
    {
        let keywords = vocab.keyword_table().clone();
        Lexer { chars: chars_of(source), pos: 0, line: 1, column: 1, keywords, vocab }
    }

    /// The character at the current position, if any.
    fn peek(&self) -> (r: Option<char>)
        requires
            self.wf(),
        ensures
            self.pos < self.chars@.len() ==> r == Some(self.chars@[self.pos as int]),
            self.pos >= self.chars@.len() ==> r is None,
    {
        if self.pos < self.chars.len() {
            Some(self.chars[self.pos])
        } else {
            None
        }
    }

    /// The character after the current one, if any.
    fn peek_next(&self) -> (r: Option<char>)
        requires
            self.wf(),
        ensures
            self.pos + 1 < self.chars@.len() ==> r == Some(self.chars@[self.pos + 1]),
            self.pos + 1 >= self.chars@.len() ==> r is None,
    {
        if self.pos + 1 < self.chars.len() {
            Some(self.chars[self.pos + 1])
        } else {
            None
        }
    }

    /// Consumes the current character, moving the line and column with it.
    fn advance(&mut self) -> (r: Option<char>)
        requires
            old(self).wf(),
        ensures
            final(self).wf(),
            final(self).chars == old(self).chars,
            final(self).keywords == old(self).keywords,
            final(self).vocab == old(self).vocab,
            old(self).pos < old(self).chars@.len() ==> r == Some(old(self).chars@[old(self).pos as int])
                && final(self).pos == old(self).pos + 1,
            old(self).pos >= old(self).chars@.len() ==> r is None && final(self).pos == old(self).pos,
    {
        if self.pos >= self.chars.len() {
            return None;
        }
        let c = self.chars[self.pos];
        proof { lemma_position_bounds(self.chars@, self.pos as int); }
        self.pos = self.pos + 1;
        if c == '\n' {
            self.line = self.line + 1;
            self.column = 1;
        } else {
            self.column = self.column + 1;
        }
        Some(c)
    }

    /// Consumes whitespace and `#` comments until neither is next.
    fn skip_whitespace_and_comments(&mut self)
        requires
            old(self).wf(),
        ensures
            final(self).wf(),
            final(self).chars == old(self).chars,
            final(self).keywords == old(self).keywords,
            final(self).vocab == old(self).vocab,
            final(self).pos == skip_trivia(old(self).chars@, old(self).pos as int, false),
    {
        let ghost target = skip_trivia(self.chars@, self.pos as int, false);
        let ghost start = *self;
        loop
            invariant
                self.wf(),
                self.chars == start.chars,
                self.keywords == start.keywords,
                self.vocab == start.vocab,
                skip_trivia(self.chars@, self.pos as int, false) == target,
            ensures
                self.wf(),
                self.chars == start.chars,
                self.keywords == start.keywords,
                self.vocab == start.vocab,
                self.pos == target,
            decreases self.chars@.len() - self.pos,
        {
            match self.peek() {
                Some(c) => {
                    if char_is_whitespace(c) {
                        self.advance();
                    } else if c == '#' {
                        self.advance();
                        let ghost p0 = self.pos;
                        loop
                            invariant
                                self.wf(),
                                self.pos >= p0,
                                self.chars == start.chars,
                                self.keywords == start.keywords,
                                self.vocab == start.vocab,
                                skip_trivia(self.chars@, self.pos as int, true) == target,
                            ensures
                                self.wf(),
                                self.pos >= p0,
                                self.chars == start.chars,
                                self.keywords == start.keywords,
                                self.vocab == start.vocab,
                                skip_trivia(self.chars@, self.pos as int, false) == target,
                            decreases self.chars@.len() - self.pos,
                        {
                            match self.peek() {
                                Some(d) => {
                                    if d == '\n' {
                                        break;
                                    }
                                    self.advance();
                                },
                                None => {
                                    break;
                                },
                            }
                        }
                    } else {
                        break;
                    }
                },
                None => {
                    break;
                },
            }
        }
    }


    /// Reads an integer or float literal at the current position (a digit).
    fn read_number(&mut self) -> (r: Result<TokenKind, LexError>)
        requires
            old(self).wf(),
            old(self).pos < old(self).chars@.len(),
            spec_is_ascii_digit(old(self).chars@[old(self).pos as int]),
        ensures
            final(self).wf(),
            final(self).chars == old(self).chars,
            final(self).keywords == old(self).keywords,
            final(self).vocab == old(self).vocab,
            match number_at(old(self).chars@, old(self).pos as int) {
                Ok((k, e)) => r matches Ok(t) && t@ == k && final(self).pos == e,
                Err(f) => r matches Err(err) && err.message@ == fault_message(old(self).vocab.model(), f)
                    && err.line == line_at(old(self).chars@, old(self).pos as int)
                    && err.column == column_at(old(self).chars@, old(self).pos as int),
            },
    {
        let ghost cs = self.chars@;
        let line = self.line;
        let column = self.column;
        let start = self.pos;
        proof { lemma_run_ends(cs, start as int); }
        let ghost e = digits_end(cs, start as int);
        while self.peek().is_some() && is_ascii_digit(self.peek().unwrap())
            invariant
                self.wf(),
                self.chars@ == cs,
                self.chars == old(self).chars,
                self.keywords == old(self).keywords,
                self.vocab == old(self).vocab,
                start <= self.pos <= e,
                digits_end(cs, self.pos as int) == e,
            decreases cs.len() - self.pos,
        {
            proof { lemma_run_ends(cs, self.pos + 1); }
            self.advance();
        }
        let mut is_float = false;
        if self.peek() == Some('.') && self.peek_next().is_some() && is_ascii_digit(self.peek_next().unwrap()) {
            is_float = true;
            self.advance();
            proof { lemma_run_ends(cs, self.pos as int); }
            let ghost f = digits_end(cs, self.pos as int);
            while self.peek().is_some() && is_ascii_digit(self.peek().unwrap())
                invariant
                    self.wf(),
                    self.chars@ == cs,
                    self.chars == old(self).chars,
                    self.keywords == old(self).keywords,
                    self.vocab == old(self).vocab,
                    e + 1 <= self.pos <= f,
                    digits_end(cs, self.pos as int) == f,
                decreases cs.len() - self.pos,
            {
                proof { lemma_run_ends(cs, self.pos + 1); }
                self.advance();
            }
        }
        let text = string_from_range(&self.chars, start, self.pos);
        if is_float {
            Ok(TokenKind::Float(text))
        } else {
            match parse_digits(&self.chars, start, self.pos) {
                Some(v) => Ok(TokenKind::Int(v)),
                None => {
                    let args = [text.as_str()];
                    assert(views(args@) =~= seq![text@]);
                    Err(LexError { message: self.vocab.msg("lex/invalid-integer-literal", &args), line, column })
                },
            }
        }
    }

    /// Reads a `"..."` string literal at its opening quote, translating the
    /// escapes `\n`, `\t`, `\"` and `\\`.
    fn read_string(&mut self) -> (r: Result<TokenKind, LexError>)
        requires
            old(self).wf(),
            old(self).pos < old(self).chars@.len(),
            old(self).chars@[old(self).pos as int] == '"',
        ensures
            final(self).wf(),
            final(self).chars == old(self).chars,
            final(self).keywords == old(self).keywords,
            final(self).vocab == old(self).vocab,
            match string_rest(old(self).chars@, old(self).pos + 1, Seq::empty()) {
                Ok((v, e)) => r matches Ok(t) && t@ == KindModel::Str(v) && final(self).pos == e,
                Err(f) => r matches Err(err) && err.message@ == fault_message(old(self).vocab.model(), f)
                    && err.line == line_at(old(self).chars@, old(self).pos as int)
                    && err.column == column_at(old(self).chars@, old(self).pos as int),
            },
    {
        let ghost cs = self.chars@;
        let ghost target = string_rest(old(self).chars@, old(self).pos + 1, Seq::empty());
        let line = self.line;
        let column = self.column;
        self.advance();
        let mut value = String::new();
        let empty: [&str; 0] = [];
        assert(views(empty@) =~= Seq::<Seq<char>>::empty());
        loop
            invariant_except_break
                string_rest(cs, self.pos as int, value@) == target,
            invariant
                self.wf(),
                self.chars@ == cs,
                self.chars == old(self).chars,
                self.keywords == old(self).keywords,
                self.vocab == old(self).vocab,
                views(empty@) == Seq::<Seq<char>>::empty(),
                target == string_rest(old(self).chars@, old(self).pos + 1, Seq::empty()),
                line == line_at(cs, old(self).pos as int),
                column == column_at(cs, old(self).pos as int),
            ensures
                self.wf(),
                self.chars == old(self).chars,
                self.keywords == old(self).keywords,
                self.vocab == old(self).vocab,
                target == Ok::<(Seq<char>, int), LexFault>((value@, self.pos as int)),
            decreases cs.len() - self.pos,
        {
            match self.peek() {
                None => {
                    return Err(LexError { message: self.vocab.msg("lex/unterminated-string", &empty), line, column });
                },
                Some(c) => {
                    if c == '\n' {
                        return Err(LexError { message: self.vocab.msg("lex/unterminated-string", &empty), line, column });
                    } else if c == '"' {
                        self.advance();
                        break;
                    } else if c == '\\' {
                        self.advance();
                        match self.advance() {
                            Some(e) => {
                                if e == 'n' {
                                    push_char(&mut value, '\n');
                                } else if e == 't' {
                                    push_char(&mut value, '\t');
                                } else if e == '"' {
                                    push_char(&mut value, '"');
                                } else if e == '\\' {
                                    push_char(&mut value, '\\');
                                } else {
                                    let mut shown = String::new();
                                    push_char(&mut shown, e);
                                    let args = [shown.as_str()];
                                    assert(views(args@) =~= seq![seq![e]]);
                                    return Err(LexError {
                                        message: self.vocab.msg("lex/invalid-escape-sequence", &args),
                                        line,
                                        column,
                                    });
                                }
                            },
                            None => {
                                return Err(LexError { message: self.vocab.msg("lex/unterminated-string", &empty), line, column });
                            },
                        }
                    } else {
                        push_char(&mut value, c);
                        self.advance();
                    }
                },
            }
        }
        Ok(TokenKind::Str(value))
    }

    /// Reads a run of identifier characters and classifies it through the
    /// keyword table: a keyword's token, or a plain identifier.
    fn read_ident_or_keyword(&mut self) -> (r: TokenKind)
        requires
            old(self).wf(),
            old(self).pos < old(self).chars@.len(),
        ensures
            final(self).wf(),
            final(self).chars == old(self).chars,
            final(self).keywords == old(self).keywords,
            final(self).vocab == old(self).vocab,
            final(self).pos == ident_end(old(self).chars@, old(self).pos as int),
            r@ == word_kind(
                old(self).keywords@,
                old(self).chars@.subrange(old(self).pos as int, ident_end(old(self).chars@, old(self).pos as int)),
            ),
    {
        let ghost cs = self.chars@;
        let start = self.pos;
        proof { lemma_run_ends(cs, start as int); }
        let ghost e = ident_end(cs, start as int);
        while self.peek().is_some() && (char_is_alphanumeric(self.peek().unwrap()) || self.peek().unwrap() == '_')
            invariant
                self.wf(),
                self.chars@ == cs,
                self.chars == old(self).chars,
                self.keywords == old(self).keywords,
                self.vocab == old(self).vocab,
                start <= self.pos <= e,
                ident_end(cs, self.pos as int) == e,
            decreases cs.len() - self.pos,
        {
            proof { lemma_run_ends(cs, self.pos + 1); }
            self.advance();
        }
        let text = string_from_range(&self.chars, start, self.pos);
        match self.keywords.get(text.as_str()) {
            Some(KeywordToken::Def) => TokenKind::Def,
            Some(KeywordToken::End) => TokenKind::End,
            Some(KeywordToken::If) => TokenKind::If,
            Some(KeywordToken::Elsif) => TokenKind::Elsif,
            Some(KeywordToken::Else) => TokenKind::Else,
            Some(KeywordToken::While) => TokenKind::While,
            Some(KeywordToken::For) => TokenKind::For,
            Some(KeywordToken::In) => TokenKind::In,
            Some(KeywordToken::Const) => TokenKind::Const,
            Some(KeywordToken::Return) => TokenKind::Return,
            Some(KeywordToken::Import) => TokenKind::Import,
            Some(KeywordToken::Class) => TokenKind::Class,
            Some(KeywordToken::Nil) => TokenKind::Nil,
            Some(KeywordToken::True) => TokenKind::Bool(true),
            Some(KeywordToken::False) => TokenKind::Bool(false),
            None => TokenKind::Ident(text),
        }
    }

    /// Reads one operator or punctuation token, preferring the two-character
    /// form (`==`, `!=`, `<=`, `>=`, `:=`, `..`) where the next character allows it.
    fn read_operator(&mut self) -> (r: Result<TokenKind, LexError>)
        requires
            old(self).wf(),
            old(self).pos < old(self).chars@.len(),
        ensures
            final(self).wf(),
            final(self).chars == old(self).chars,
            final(self).keywords == old(self).keywords,
            final(self).vocab == old(self).vocab,
            match operator_at(old(self).chars@, old(self).pos as int) {
                Ok((k, e)) => r matches Ok(t) && t@ == k && final(self).pos == e,
                Err(f) => r matches Err(err) && err.message@ == fault_message(old(self).vocab.model(), f)
                    && err.line == line_at(old(self).chars@, old(self).pos as int)
                    && err.column == column_at(old(self).chars@, old(self).pos as int),
            },
    {
        let line = self.line;
        let column = self.column;
        let c = self.advance().unwrap();
        let kind = if c == '+' {
            TokenKind::Plus
        } else if c == '-' {
            TokenKind::Minus
        } else if c == '*' {
            TokenKind::Star
        } else if c == '/' {
            TokenKind::Slash
        } else if c == '(' {
            TokenKind::LParen
        } else if c == ')' {
            TokenKind::RParen
        } else if c == '[' {
            TokenKind::LBracket
        } else if c == ']' {
            TokenKind::RBracket
        } else if c == ',' {
            TokenKind::Comma
        } else if c == '=' {
            if self.peek() == Some('=') {
                self.advance();
                TokenKind::EqEq
            } else {
                TokenKind::Eq
            }
        } else if c == '!' {
            if self.peek() == Some('=') {
                self.advance();
                TokenKind::NotEq
            } else {
                return Err(LexError { message: "unexpected character `!`".to_owned(), line, column });
            }
        } else if c == '<' {
            if self.peek() == Some('=') {
                self.advance();
                TokenKind::LtEq
            } else {
                TokenKind::Lt
            }
        } else if c == '>' {
            if self.peek() == Some('=') {
                self.advance();
                TokenKind::GtEq
            } else {
                TokenKind::Gt
            }
        } else if c == ':' {
            if self.peek() == Some('=') {
                self.advance();
                TokenKind::ColonEq
            } else {
                TokenKind::Colon
            }
        } else if c == '.' {
            if self.peek() == Some('.') {
                self.advance();
                TokenKind::DotDot
            } else {
                TokenKind::Dot
            }
        } else {
            let mut shown = String::new();
            push_char(&mut shown, c);
            let args = [shown.as_str()];
            assert(views(args@) =~= seq![seq![c]]);
            return Err(LexError { message: self.vocab.msg("lex/unexpected-character", &args), line, column });
        };
        Ok(kind)
    }

    /// Runs the lexer to the end of its text: every token in order, closed
    /// by `Eof`, or the first lexing error.
    pub fn tokenize(self) -> (r: Result<Vec<Token>, LexError>)
        requires
            self.wf(),
        ensures
            match lex_from(self.source(), self.position(), self.keyword_table()) {
                Ok(ts) => r matches Ok(v) && tokens_model(v@) == ts,
                Err((f, q)) => r matches Err(e) && e.message@ == fault_message(self.vocab_model(), f)
                    && e.line == line_at(self.source(), q) && e.column == column_at(self.source(), q),
            },
    {
        let mut lexer = self;
        lexer.lex_all()
    }

    /// The token loop behind `tokenize`.
    fn lex_all(&mut self) -> (r: Result<Vec<Token>, LexError>)
        requires
            old(self).wf(),
        ensures
            match lex_from(old(self).chars@, old(self).pos as int, old(self).keywords@) {
                Ok(ts) => r matches Ok(v) && tokens_model(v@) == ts,
                Err((f, q)) => r matches Err(e) && e.message@ == fault_message(old(self).vocab.model(), f)
                    && e.line == line_at(old(self).chars@, q) && e.column == column_at(old(self).chars@, q),
            },
    {
        let ghost cs = self.chars@;
        let ghost kw = self.keywords@;
        let ghost vm = self.vocab.model();
        let ghost total = lex_from(cs, self.pos as int, kw);
        let mut tokens: Vec<Token> = Vec::new();
        assert(tokens_model(tokens@) =~= Seq::<(KindModel, nat, nat)>::empty());
        loop
            invariant_except_break
                total == after_prefix(tokens_model(tokens@), lex_from(self.chars@, self.pos as int, kw)),
            invariant
                self.wf(),
                self.chars@ == cs,
                self.keywords@ == kw,
                self.vocab.model() == vm,
                cs == old(self).chars@,
                kw == old(self).keywords@,
                vm == old(self).vocab.model(),
                total == lex_from(old(self).chars@, old(self).pos as int, old(self).keywords@),
            ensures
                total == Ok::<Seq<(KindModel, nat, nat)>, (LexFault, int)>(tokens_model(tokens@)),
            decreases cs.len() - self.pos,
        {
            let ghost p = self.pos as int;
            self.skip_whitespace_and_comments();
            proof { lemma_skip_trivia(cs, p, false); }
            let line = self.line;
            let column = self.column;
            let ghost q = self.pos as int;
            let c = match self.peek() {
                None => {
                    let ghost before = tokens@;
                    tokens.push(Token { kind: TokenKind::Eof, line, column });
                    assert(tokens_model(tokens@) =~= tokens_model(before) + seq![(KindModel::Plain(TokenKind::Eof), line as nat, column as nat)]);
                    break;
                },
                Some(c) => c,
            };
            proof { lemma_token_advances(cs, q, kw); }
            let kind = if is_ascii_digit(c) {
                match self.read_number() {
                    Ok(k) => k,
                    Err(e) => {
                        return Err(e);
                    },
                }
            } else if c == '"' {
                match self.read_string() {
                    Ok(k) => k,
                    Err(e) => {
                        return Err(e);
                    },
                }
            } else if char_is_alphabetic(c) || c == '_' {
                self.read_ident_or_keyword()
            } else {
                match self.read_operator() {
                    Ok(k) => k,
                    Err(e) => {
                        return Err(e);
                    },
                }
            };
            let ghost before = tokens@;
            tokens.push(Token { kind, line, column });
            proof {
                assert(tokens_model(tokens@) =~= tokens_model(before) + seq![(kind@, line as nat, column as nat)]);
                let rest = lex_from(cs, self.pos as int, kw);
                if let Ok(r) = rest {
                    assert(tokens_model(before) + (seq![(kind@, line as nat, column as nat)] + r)
                        =~= tokens_model(tokens@) + r);
                }
            }
        }
        Ok(tokens)
    }
}

impl LexError {
    /// `line:column: message`, the error's one-line form.
    pub fn display(&self) -> (r: String)
        ensures
            r@ == located_message(self.line as nat, self.column as nat, self.message@),
    {
        display_located(self.line, self.column, self.message.as_str())
    }
}

impl Diagnostic for LexError {
    open spec fn kind_spec(&self) -> Seq<char> {
        "lex error"@
    }

    open spec fn message_spec(&self) -> Seq<char> {
        self.message@
    }

    open spec fn span_spec(&self) -> Span {
        Span::new_spec(self.line, self.column)
    }

    open spec fn frames_spec(&self) -> Seq<(Seq<char>, nat, nat)> {
        Seq::empty()
    }

    fn kind(&self) -> (r: &str)
        ensures
            r@ == "lex error"@,
    {
        "lex error"
    }

    fn message(&self) -> (r: &str)
        ensures
            r@ == self.message@,
    {
        self.message.as_str()
    }

    fn span(&self) -> (r: Span)
        ensures
            r == Span::new_spec(self.line, self.column),
    {
        Span::new(self.line, self.column)
    }

    /// No call stack: a stage error has no frames.
    fn frames(&self) -> (r: Vec<Frame>)
        ensures
            frames_model(r@) == self.frames_spec(),
    {
        let r: Vec<Frame> = Vec::new();
        assert(frames_model(r@) =~= Seq::<(Seq<char>, nat, nat)>::empty());
        r
    }
}

/// Lexing law: a successful run ends with exactly one `Eof`, as its last token.
pub proof fn lemma_ends_with_eof(cs: Seq<char>, p: int, keywords: Map<Seq<char>, KeywordToken>)
    requires
        0 <= p <= cs.len(),
    ensures
        lex_from(cs, p, keywords) matches Ok(ts) ==> ts.len() > 0 && ts.last().0 == KindModel::Plain(TokenKind::Eof)
            && forall|i: int| 0 <= i < ts.len() - 1 ==> (#[trigger] ts[i]).0 != KindModel::Plain(TokenKind::Eof),
    decreases cs.len() - p,
{
    lemma_skip_trivia(cs, p, false);
    let q = skip_trivia(cs, p, false);
    if q < cs.len() {
        lemma_token_advances(cs, q, keywords);
        if let Ok((k, e)) = token_at(cs, q, keywords) {
            lemma_ends_with_eof(cs, e, keywords);
            lemma_token_is_not_eof(cs, q, keywords);
            if let Ok(rest) = lex_from(cs, e, keywords) {
                let ts = seq![(k, line_at(cs, q), column_at(cs, q))] + rest;
                assert forall|i: int| 0 <= i < ts.len() - 1 implies (#[trigger] ts[i]).0 != KindModel::Plain(TokenKind::Eof) by {
                    if i > 0 {
                        assert(ts[i] == rest[i - 1]);
                    }
                }
            }
        }
    }
}

/// No token read from the text is `Eof`; only the end of the text is.
pub proof fn lemma_token_is_not_eof(cs: Seq<char>, p: int, keywords: Map<Seq<char>, KeywordToken>)
    requires
        0 <= p < cs.len(),
    ensures
        token_at(cs, p, keywords) matches Ok((k, _)) ==> k != KindModel::Plain(TokenKind::Eof),
{
    let e = ident_end(cs, p);
    let text = cs.subrange(p, e);
    if keywords.contains_key(text) {
        let t = keywords[text];
        assert(keyword_kind(t) != KindModel::Plain(TokenKind::Eof));
    }
}

/// Keyword law: with the English table, every keyword's canonical spelling
/// reads as that keyword's token.
pub proof fn lemma_english_keywords_lex(t: KeywordToken)
    ensures
        word_kind(english_keyword_map(), canonical_spelling(t)) == keyword_kind(t),
{
    lemma_keyword_named(t);
}


/// Whether a token kind is one a word can read as: an identifier or a keyword.
pub open spec fn is_word_kind(k: KindModel) -> bool {
    k is Ident || exists|t: KeywordToken| k == #[trigger] keyword_kind(t)
}

/// Two tokens read at the same place under two vocabularies: the same
/// position, and the same kind unless both are words; two identifiers are
/// the same identifier.
pub open spec fn tokens_agree(a: (KindModel, nat, nat), b: (KindModel, nat, nat)) -> bool {
    &&& a.1 == b.1
    &&& a.2 == b.2
    &&& a.0 == b.0 || (is_word_kind(a.0) && is_word_kind(b.0))
    &&& (a.0 is Ident && b.0 is Ident) ==> a.0 == b.0
}

/// One token read under two vocabularies: the same end and the same fault,
/// and kinds that agree.
pub proof fn lemma_token_under_two_vocabularies(
    cs: Seq<char>,
    p: int,
    k1: Map<Seq<char>, KeywordToken>,
    k2: Map<Seq<char>, KeywordToken>,
)
    requires
        0 <= p < cs.len(),
    ensures
        match (token_at(cs, p, k1), token_at(cs, p, k2)) {
            (Ok((a, e1)), Ok((b, e2))) => e1 == e2 && tokens_agree((a, 0, 0), (b, 0, 0)),
            (Err(f1), Err(f2)) => f1 == f2,
            _ => false,
        },
{
    let e = ident_end(cs, p);
    let text = cs.subrange(p, e);
    if k1.contains_key(text) {
        assert(word_kind(k1, text) == keyword_kind(k1[text]));
    }
    if k2.contains_key(text) {
        assert(word_kind(k2, text) == keyword_kind(k2[text]));
    }
}

/// Translation law: a vocabulary decides only which words are keywords.
/// Under any two keyword tables the same text lexes to the same number of
/// tokens at the same positions (or fails the same way); string literals,
/// numbers and operators come out the same, and a word that is an
/// identifier under both tables is the same identifier.
pub proof fn lemma_vocabulary_changes_only_words(
    cs: Seq<char>,
    p: int,
    k1: Map<Seq<char>, KeywordToken>,
    k2: Map<Seq<char>, KeywordToken>,
)
    ensures
        match (lex_from(cs, p, k1), lex_from(cs, p, k2)) {
            (Ok(a), Ok(b)) => a.len() == b.len() && forall|i: int| 0 <= i < a.len() ==> tokens_agree(#[trigger] a[i], b[i]),
            (Err(e1), Err(e2)) => e1 == e2,
            _ => false,
        },
    decreases cs.len() - p,
{
    if 0 <= p <= cs.len() {
        lemma_skip_trivia(cs, p, false);
        let q = skip_trivia(cs, p, false);
        if q < cs.len() {
            lemma_token_advances(cs, q, k1);
            lemma_token_advances(cs, q, k2);
            lemma_token_under_two_vocabularies(cs, q, k1, k2);
            if let (Ok((a, e)), Ok((b, _))) = (token_at(cs, q, k1), token_at(cs, q, k2)) {
                lemma_vocabulary_changes_only_words(cs, e, k1, k2);
                if let (Ok(r1), Ok(r2)) = (lex_from(cs, e, k1), lex_from(cs, e, k2)) {
                    let t1 = seq![(a, line_at(cs, q), column_at(cs, q))] + r1;
                    let t2 = seq![(b, line_at(cs, q), column_at(cs, q))] + r2;
                    assert forall|i: int| 0 <= i < t1.len() implies tokens_agree(#[trigger] t1[i], t2[i]) by {
                        if i > 0 {
                            assert(t1[i] == r1[i - 1]);
                            assert(t2[i] == r2[i - 1]);
                        }
                    }
                }
            }
        }
    }
}

} // verus!
