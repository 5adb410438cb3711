//! Yara's reserved words and the table that spells them.
//!
//! Source text maps to a `KeywordToken`, and a `KeywordToken` maps to the
//! lexer's token kinds. Because the spelling-to-token table is data, a
//! translated vocabulary can point other spellings at the same tokens.

use vstd::prelude::*;
use crate::strmap::StrMap;

verus! {

/// The fixed set of reserved words, independent of how a source file spells them.
#[derive(Debug, Clone, Copy, PartialEq, Eq, Hash, Structural)]
pub enum KeywordToken {
    Def,
    End,
    If,
    Elsif,
    Else,
    While,
    For,
    In,
    Const,
    Return,
    Nil,
    Import,
    Class,
    True,
    False,
}

/// A keyword table: source spelling to keyword.
pub type KeywordMap = StrMap<KeywordToken>;

/// The canonical (English) spelling of each keyword.
pub open spec fn canonical_spelling(t: KeywordToken) -> Seq<char> {
    match t {
        KeywordToken::Def => "def"@,
        KeywordToken::End => "end"@,
        KeywordToken::If => "if"@,
        KeywordToken::Elsif => "elsif"@,
        KeywordToken::Else => "else"@,
        KeywordToken::While => "while"@,
        KeywordToken::For => "for"@,
        KeywordToken::In => "in"@,
        KeywordToken::Const => "const"@,
        KeywordToken::Return => "return"@,
        KeywordToken::Nil => "nil"@,
        KeywordToken::Import => "import"@,
        KeywordToken::Class => "class"@,
        KeywordToken::True => "true"@,
        KeywordToken::False => "false"@,
    }
}

/// Every keyword, in table order.
pub open spec fn all_keywords() -> Seq<KeywordToken> {
    seq![
        KeywordToken::Def,
        KeywordToken::End,
        KeywordToken::If,
        KeywordToken::Elsif,
        KeywordToken::Else,
        KeywordToken::While,
        KeywordToken::For,
        KeywordToken::In,
        KeywordToken::Const,
        KeywordToken::Return,
        KeywordToken::Nil,
        KeywordToken::Import,
        KeywordToken::Class,
        KeywordToken::True,
        KeywordToken::False,
    ]
}

/// Whether `name` is the canonical spelling of some keyword.
pub open spec fn is_canonical_spelling(name: Seq<char>) -> bool {
    exists|t: KeywordToken| canonical_spelling(t) == name
}

/// The keyword whose canonical spelling is `name` (meaningful when there is one).
pub open spec fn keyword_named(name: Seq<char>) -> KeywordToken {
    choose|t: KeywordToken| canonical_spelling(t) == name
}

/// The default English table as a map.
pub open spec fn english_keyword_map() -> Map<Seq<char>, KeywordToken> {
    Map::new(|k: Seq<char>| is_canonical_spelling(k), |k: Seq<char>| keyword_named(k))
}

/// The keyword named by a canonical spelling is the one spelled that way.
pub proof fn lemma_keyword_named(t: KeywordToken)
    ensures
        is_canonical_spelling(canonical_spelling(t)),
        keyword_named(canonical_spelling(t)) == t,
{
    let u = keyword_named(canonical_spelling(t));
    lemma_canonical_spelling_injective(t, u);
}

/// The default English table: each keyword under its canonical spelling and nothing else.
pub open spec fn default_keyword_map(m: Map<Seq<char>, KeywordToken>) -> bool {
    &&& forall|t: KeywordToken| #[trigger] m.contains_key(canonical_spelling(t))
        && m[canonical_spelling(t)] == t
    &&& forall|k: Seq<char>| #[trigger] m.contains_key(k) ==> is_canonical_spelling(k)
}

/// A fingerprint of each canonical spelling: its length, first and last character.
spec fn spelling_fingerprint(t: KeywordToken) -> (int, char, char) {
    match t {
        KeywordToken::Def => (3, 'd', 'f'),
        KeywordToken::End => (3, 'e', 'd'),
        KeywordToken::If => (2, 'i', 'f'),
        KeywordToken::Elsif => (5, 'e', 'f'),
        KeywordToken::Else => (4, 'e', 'e'),
        KeywordToken::While => (5, 'w', 'e'),
        KeywordToken::For => (3, 'f', 'r'),
        KeywordToken::In => (2, 'i', 'n'),
        KeywordToken::Const => (5, 'c', 't'),
        KeywordToken::Return => (6, 'r', 'n'),
        KeywordToken::Nil => (3, 'n', 'l'),
        KeywordToken::Import => (6, 'i', 't'),
        KeywordToken::Class => (5, 'c', 's'),
        KeywordToken::True => (4, 't', 'e'),
        KeywordToken::False => (5, 'f', 'e'),
    }
}

proof fn lemma_fingerprint(t: KeywordToken)
    ensures
        canonical_spelling(t).len() == spelling_fingerprint(t).0,
        canonical_spelling(t).len() > 0,
        canonical_spelling(t)[0] == spelling_fingerprint(t).1,
        canonical_spelling(t)[canonical_spelling(t).len() - 1] == spelling_fingerprint(t).2,
{
    reveal_strlit("def");
    reveal_strlit("end");
    reveal_strlit("if");
    reveal_strlit("elsif");
    reveal_strlit("else");
    reveal_strlit("while");
    reveal_strlit("for");
    reveal_strlit("in");
    reveal_strlit("const");
    reveal_strlit("return");
    reveal_strlit("nil");
    reveal_strlit("import");
    reveal_strlit("class");
    reveal_strlit("true");
    reveal_strlit("false");
}

/// No two keywords share a canonical spelling.
pub proof fn lemma_canonical_spelling_injective(a: KeywordToken, b: KeywordToken)
    ensures
        canonical_spelling(a) == canonical_spelling(b) ==> a == b,
{
    lemma_fingerprint(a);
    lemma_fingerprint(b);
}

impl KeywordToken {
    /// The canonical (English) name, used as the left-hand side in a
    /// vocabulary file and as the key in `default_keywords()`.
    pub fn canonical_name(self) -> (r: &'static str)
        ensures
            r@ == canonical_spelling(self),
    {
        match self {
            KeywordToken::Def => "def",
            KeywordToken::End => "end",
            KeywordToken::If => "if",
            KeywordToken::Elsif => "elsif",
            KeywordToken::Else => "else",
            KeywordToken::While => "while",
            KeywordToken::For => "for",
            KeywordToken::In => "in",
            KeywordToken::Const => "const",
            KeywordToken::Return => "return",
            KeywordToken::Nil => "nil",
            KeywordToken::Import => "import",
            KeywordToken::Class => "class",
            KeywordToken::True => "true",
            KeywordToken::False => "false",
        }
    }

    /// Every keyword, in table order.
    pub fn all() -> (r: Vec<KeywordToken>)
        ensures
            r@ == all_keywords(),
    {
        let r = vec![
            KeywordToken::Def,
            KeywordToken::End,
            KeywordToken::If,
            KeywordToken::Elsif,
            KeywordToken::Else,
            KeywordToken::While,
            KeywordToken::For,
            KeywordToken::In,
            KeywordToken::Const,
            KeywordToken::Return,
            KeywordToken::Nil,
            KeywordToken::Import,
            KeywordToken::Class,
            KeywordToken::True,
            KeywordToken::False,
        ];
        assert(r@ =~= all_keywords());
        r
    }
}

/// The position of each keyword in `all_keywords()`.
pub open spec fn keyword_index(t: KeywordToken) -> int {
    match t {
        KeywordToken::Def => 0,
        KeywordToken::End => 1,
        KeywordToken::If => 2,
        KeywordToken::Elsif => 3,
        KeywordToken::Else => 4,
        KeywordToken::While => 5,
        KeywordToken::For => 6,
        KeywordToken::In => 7,
        KeywordToken::Const => 8,
        KeywordToken::Return => 9,
        KeywordToken::Nil => 10,
        KeywordToken::Import => 11,
        KeywordToken::Class => 12,
        KeywordToken::True => 13,
        KeywordToken::False => 14,
    }
}

/// Every keyword occurs in `all_keywords()`, exactly once.
pub proof fn lemma_all_keywords_complete(t: KeywordToken)
    ensures
        0 <= keyword_index(t) < 15,
        all_keywords()[keyword_index(t)] == t,
        all_keywords().contains(t),
        all_keywords().len() == 15,
        forall|i: int, j: int| 0 <= i < j < 15 ==> all_keywords()[i] != all_keywords()[j],
{
    match t {
        KeywordToken::Def => assert(all_keywords()[0] == t),
        KeywordToken::End => assert(all_keywords()[1] == t),
        KeywordToken::If => assert(all_keywords()[2] == t),
        KeywordToken::Elsif => assert(all_keywords()[3] == t),
        KeywordToken::Else => assert(all_keywords()[4] == t),
        KeywordToken::While => assert(all_keywords()[5] == t),
        KeywordToken::For => assert(all_keywords()[6] == t),
        KeywordToken::In => assert(all_keywords()[7] == t),
        KeywordToken::Const => assert(all_keywords()[8] == t),
        KeywordToken::Return => assert(all_keywords()[9] == t),
        KeywordToken::Nil => assert(all_keywords()[10] == t),
        KeywordToken::Import => assert(all_keywords()[11] == t),
        KeywordToken::Class => assert(all_keywords()[12] == t),
        KeywordToken::True => assert(all_keywords()[13] == t),
        KeywordToken::False => assert(all_keywords()[14] == t),
    }
}

/// The default English keyword table: every keyword under its canonical spelling.
pub fn default_keywords() -> (r: KeywordMap)
    ensures
        default_keyword_map(r@),
        r@ == english_keyword_map(),
        r@.dom().len() == 15,
{
    let all = KeywordToken::all();
    let mut m: KeywordMap = StrMap::new();
    let mut i: usize = 0;
    while i < all.len()
        invariant
            all@ == all_keywords(),
            i <= all@.len(),
            forall|j: int| 0 <= j < i ==> #[trigger] m@.contains_key(canonical_spelling(all@[j]))
                && m@[canonical_spelling(all@[j])] == all@[j],
            forall|k: Seq<char>| #[trigger] m@.contains_key(k) ==>
                exists|j: int| 0 <= j < i && canonical_spelling(all@[j]) == k,
            m@.dom().finite(),
            m@.dom().len() == i,
        decreases all@.len() - i,
    {
        let t = all[i];
        let name = t.canonical_name();
        proof {
            assert forall|j: int| 0 <= j < i implies canonical_spelling(all@[j]) != canonical_spelling(t) by {
                lemma_canonical_spelling_injective(all@[j], t);
                lemma_all_keywords_complete(t);
            }
            assert(!m@.contains_key(canonical_spelling(t)));
        }
        m.insert(name.to_owned(), t);
        proof {
            assert forall|k: Seq<char>| #[trigger] m@.contains_key(k) implies
                exists|j: int| 0 <= j < i + 1 && canonical_spelling(all@[j]) == k by {
                if k == canonical_spelling(t) {
                    assert(canonical_spelling(all@[i as int]) == k);
                } else {
                    let j = choose|j: int| 0 <= j < i && canonical_spelling(all@[j]) == k;
                    assert(canonical_spelling(all@[j]) == k);
                }
            }
        }
        i = i + 1;
    }
    proof {
        assert forall|t: KeywordToken| #[trigger] m@.contains_key(canonical_spelling(t))
            && m@[canonical_spelling(t)] == t by {
            lemma_all_keywords_complete(t);
            let j = keyword_index(t);
            assert(all@[j] == t);
        }
        assert forall|k: Seq<char>| #[trigger] m@.contains_key(k) <==> english_keyword_map().contains_key(k) by {
            if english_keyword_map().contains_key(k) {
                let t = choose|t: KeywordToken| canonical_spelling(t) == k;
                assert(m@.contains_key(canonical_spelling(t)));
            }
            if m@.contains_key(k) {
                let j = choose|j: int| 0 <= j < 15 && canonical_spelling(all@[j]) == k;
                assert(canonical_spelling(all@[j]) == k);
            }
        }
        assert forall|k: Seq<char>| #[trigger] m@.contains_key(k) implies m@[k] == english_keyword_map()[k] by {
            let j = choose|j: int| 0 <= j < 15 && canonical_spelling(all@[j]) == k;
            lemma_keyword_named(all@[j]);
        }
        assert(m@ =~= english_keyword_map());
    }
    m
}

} // verus!
