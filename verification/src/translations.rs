//! Vocabulary translation: sectioned `canonical = localized` files that let a
//! program be written in another language — keywords, type names,
//! builtins, primitive methods and message templates — and the
//! [`Vocabulary`] such a file produces.

use vstd::prelude::*;
use crate::text::{str_eq, push_str, chars_of, split_lines, lines_of, trim, trim_range, first_index_of, find_char_from, string_from_chars, string_from_range, lemma_first_index_of};
use crate::strmap::StrMap;
use crate::keywords::{KeywordToken, KeywordMap, default_keywords, english_keyword_map, canonical_spelling, is_canonical_spelling, keyword_named, keyword_index, all_keywords, lemma_keyword_named, lemma_all_keywords_complete};
use crate::builtins::{builtins, builtin_table};
use crate::methods::{methods, method_table};
use crate::messages::{lookup_english, english_template, substitute, substituted, views, is_message_key};
use crate::typechecker::{Type, TypeModel, primitive_type_names, primitive_names};
use crate::diagnostics::{Diagnostic, Span, Frame, frames_model};
use crate::text::{decimal, usize_to_decimal};

verus! {

/// An error in a vocabulary file, at a 1-indexed line of that file.
#[derive(Debug)]
pub struct TranslationError {
    pub message: String,
    pub line: usize,
}

impl TranslationError {
    /// `line: message`, the error's one-line form.
    pub fn display(&self) -> (r: String)
        ensures
            r@ == decimal(self.line as nat) + ": "@ + self.message@,
    {
        let mut out = usize_to_decimal(self.line);
        push_str(&mut out, ": ");
        push_str(&mut out, self.message.as_str());
        out
    }
}

impl Diagnostic for TranslationError {
    open spec fn kind_spec(&self) -> Seq<char> {
        "keyword translation error"@
    }

    open spec fn message_spec(&self) -> Seq<char> {
        self.message@
    }

    open spec fn span_spec(&self) -> Span {
        Span::new_spec(self.line, 1)
    }

    open spec fn frames_spec(&self) -> Seq<(Seq<char>, nat, nat)> {
        Seq::empty()
    }

    fn kind(&self) -> (r: &str)
        ensures
            r@ == "keyword translation error"@,
    {
        "keyword translation error"
    }

    fn message(&self) -> (r: &str)
        ensures
            r@ == self.message@,
    {
        self.message.as_str()
    }

    /// A translation error points at a whole line of the vocabulary file,
    /// so its caret sits at column 1.
    fn span(&self) -> (r: Span)
        ensures
            r == Span::new_spec(self.line, 1),
    {
        Span::new(self.line, 1)
    }

    /// No call stack: a stage error has no frames.
    fn frames(&self) -> (r: Vec<Frame>)
        ensures
            frames_model(r@) == self.frames_spec(),
    {
        let r: Vec<Frame> = Vec::new();
        assert(frames_model(r@) =~= Seq::<(Seq<char>, nat, nat)>::empty());
        r
    }
}

/// The views of the values of a string-valued map.
pub open spec fn strs(m: Map<Seq<char>, String>) -> Map<Seq<char>, Seq<char>> {
    m.map_values(|s: String| s@)
}

/// The views of a sequence of string slices.
pub open spec fn str_views(v: Seq<&str>) -> Seq<Seq<char>> {
    v.map_values(|s: &str| s@)
}

/// The abstract value of a vocabulary: every table, by characters.
pub struct VocabModel {
    pub keywords: Map<Seq<char>, KeywordToken>,
    pub types: Map<Seq<char>, Seq<char>>,
    pub types_out: Map<Seq<char>, Seq<char>>,
    pub builtins: Map<Seq<char>, Seq<char>>,
    pub builtins_out: Map<Seq<char>, Seq<char>>,
    pub methods: Map<Seq<char>, Seq<char>>,
    pub methods_out: Map<Seq<char>, Seq<char>>,
    pub messages: Map<Seq<char>, Seq<char>>,
}

/// A fully resolved translation vocabulary, mapped both ways: localized to
/// canonical (to read a translated program) and canonical to localized (to
/// echo a localized spelling in a diagnostic).
#[derive(Debug)]
pub struct Vocabulary {
    /// Localized spelling to keyword, what the lexer consumes.
    pub keywords: KeywordMap,
    types: StrMap<String>,
    types_out: StrMap<String>,
    builtins: StrMap<String>,
    builtins_out: StrMap<String>,
    methods: StrMap<String>,
    methods_out: StrMap<String>,
    /// Message key to localized template; a key absent here falls back to
    /// its English template.
    messages: StrMap<String>,
}

impl Vocabulary {
    /// The abstract value of this vocabulary.
    pub closed spec fn model(&self) -> VocabModel {
        VocabModel {
            keywords: self.keywords@,
            types: strs(self.types@),
            types_out: strs(self.types_out@),
            builtins: strs(self.builtins@),
            builtins_out: strs(self.builtins_out@),
            methods: strs(self.methods@),
            methods_out: strs(self.methods_out@),
            messages: strs(self.messages@),
        }
    }
    /// The keyword table: localized spelling to keyword.
    pub fn keyword_table(&self) -> (r: &KeywordMap)
        ensures
            r@ == self.model().keywords,
    {
        &self.keywords
    }
}

/// The name lists a vocabulary file may translate.
pub open spec fn type_name_list() -> Seq<Seq<char>> {
    primitive_names() + seq!["Int"@, "Bool"@, "Str"@] + seq!["IntArray"@, "FloatArray"@, "BoolArray"@, "StringArray"@]
        + seq!["Array"@, "Ptr"@]
}

/// Every builtin name plus `print`.
pub open spec fn builtin_name_list() -> Seq<Seq<char>> {
    builtin_table().map_values(|e: (Seq<char>, nat)| e.0).push("print"@)
}

/// `s` with later repeats dropped, first occurrences kept in order.
pub open spec fn dedup(s: Seq<Seq<char>>) -> Seq<Seq<char>>
    decreases s.len(),
{
    if s.len() == 0 {
        Seq::empty()
    } else {
        let d = dedup(s.drop_last());
        if d.contains(s.last()) {
            d
        } else {
            d.push(s.last())
        }
    }
}

/// Every distinct primitive-method name plus `new`.
pub open spec fn method_name_list() -> Seq<Seq<char>> {
    dedup(method_table().map_values(|e: (crate::methods::ReceiverKind, Seq<char>, nat)| e.1)).push("new"@)
}

/// The map sending each of `names` to itself.
pub open spec fn identity_on(names: Seq<Seq<char>>) -> Map<Seq<char>, Seq<char>> {
    Map::new(|k: Seq<char>| names.contains(k), |k: Seq<char>| k)
}

/// The untranslated vocabulary.
pub open spec fn english_model() -> VocabModel {
    VocabModel {
        keywords: english_keyword_map(),
        types: identity_on(type_name_list()),
        types_out: identity_on(type_name_list()),
        builtins: identity_on(builtin_name_list()),
        builtins_out: identity_on(builtin_name_list()),
        methods: identity_on(method_name_list()),
        methods_out: identity_on(method_name_list()),
        messages: Map::empty(),
    }
}

/// Whether `v` contains the string `s`.
fn contains_str(v: &Vec<&'static str>, s: &str) -> (r: bool)
    ensures
        r == str_views(v@).contains(s@),
{
    let mut i: usize = 0;
    while i < v.len()
        invariant
            i <= v@.len(),
            forall|k: int| 0 <= k < i ==> v@[k]@ != s@,
        decreases v@.len() - i,
    {
        if str_eq(v[i], s) {
            assert(str_views(v@)[i as int] == s@);
            return true;
        }
        i = i + 1;
    }
    proof {
        if str_views(v@).contains(s@) {
            let k = choose|k: int| 0 <= k < str_views(v@).len() && str_views(v@)[k] == s@;
            assert(v@[k]@ == s@);
        }
    }
    false
}

/// Builds the map sending each of `names` to itself.
fn identity_map(names: &Vec<&'static str>) -> (r: StrMap<String>)
    ensures
        strs(r@) == identity_on(str_views(names@)),
{
    let mut m: StrMap<String> = StrMap::new();
    let mut i: usize = 0;
    while i < names.len()
        invariant
            i <= names@.len(),
            strs(m@) == identity_on(str_views(names@).take(i as int)),
        decreases names@.len() - i,
    {
        let ghost before = strs(m@);
        let ghost x = names@[i as int]@;
        let key = names[i].to_owned();
        let val = names[i].to_owned();
        m.insert(key, val);
        proof {
            let t = str_views(names@).take(i + 1);
            let p = str_views(names@).take(i as int);
            assert(t =~= p.push(x));
            assert(strs(m@) =~= before.insert(x, x));
            assert forall|k: Seq<char>| t.contains(k) <==> (p.contains(k) || k == x) by {
                if t.contains(k) {
                    let j = choose|j: int| 0 <= j < t.len() && t[j] == k;
                    if j < p.len() {
                        assert(p[j] == k);
                    }
                }
                if p.contains(k) {
                    let j = choose|j: int| 0 <= j < p.len() && p[j] == k;
                    assert(t[j] == k);
                }
                if k == x {
                    assert(t[i as int] == k);
                }
            }
            assert(strs(m@) =~= identity_on(t));
        }
        i = i + 1;
    }
    assert(str_views(names@).take(names@.len() as int) =~= str_views(names@));
    m
}

impl Vocabulary {
    /// Every canonical type name a `[types]` line may name.
    pub fn canonical_type_names() -> (r: Vec<&'static str>)
        ensures
            str_views(r@) == type_name_list(),
    {
        let mut names = primitive_type_names();
        names.push("Int");
        names.push("Bool");
        names.push("Str");
        names.push("IntArray");
        names.push("FloatArray");
        names.push("BoolArray");
        names.push("StringArray");
        names.push("Array");
        names.push("Ptr");
        assert(str_views(names@) =~= type_name_list());
        names
    }

    /// Every canonical builtin name a `[builtins]` line may name.
    pub fn canonical_builtin_names() -> (r: Vec<&'static str>)
        ensures
            str_views(r@) == builtin_name_list(),
    {
        let table = builtins();
        let mut names: Vec<&'static str> = Vec::new();
        let mut i: usize = 0;
        while i < table.len()
            invariant
                i <= table@.len(),
                table@.len() == builtin_table().len(),
                forall|k: int| 0 <= k < table@.len() ==> (#[trigger] table@[k]).name@ == builtin_table()[k].0,
                str_views(names@) == builtin_table().map_values(|e: (Seq<char>, nat)| e.0).take(i as int),
            decreases table@.len() - i,
        {
            let ghost prev = names@;
            names.push(table[i].name);
            proof {
                let full = builtin_table().map_values(|e: (Seq<char>, nat)| e.0);
                assert(names@ == prev.push(table@[i as int].name));
                assert(str_views(prev).len() == i);
                assert forall|k: int| 0 <= k < i + 1 implies #[trigger] str_views(names@)[k] == full.take(i + 1)[k] by {
                    if k < i {
                        assert(str_views(prev)[k] == full.take(i as int)[k]);
                    } else {
                        assert(full[k] == builtin_table()[k].0);
                    }
                }
                assert(str_views(names@) =~= full.take(i + 1));
            }
            i = i + 1;
        }
        let ghost prev = names@;
        names.push("print");
        proof {
            let full = builtin_table().map_values(|e: (Seq<char>, nat)| e.0);
            assert(full.take(i as int) =~= full);
            assert forall|k: int| 0 <= k < names@.len() implies #[trigger] str_views(names@)[k] == builtin_name_list()[k] by {
                if k < prev.len() {
                    assert(str_views(prev)[k] == full[k]);
                }
            }
            assert(str_views(names@) =~= builtin_name_list());
        }
        names
    }

    /// Every canonical method name a `[methods]` line may name.
    pub fn canonical_method_names() -> (r: Vec<&'static str>)
        ensures
            str_views(r@) == method_name_list(),
    {
        let table = methods();
        let ghost all = method_table().map_values(|e: (crate::methods::ReceiverKind, Seq<char>, nat)| e.1);
        let mut names: Vec<&'static str> = Vec::new();
        let mut i: usize = 0;
        assert(all.take(0) =~= Seq::<Seq<char>>::empty());
        assert(str_views(names@) =~= dedup(all.take(0)));
        while i < table.len()
            invariant
                i <= table@.len(),
                table@.len() == method_table().len(),
                all == method_table().map_values(|e: (crate::methods::ReceiverKind, Seq<char>, nat)| e.1),
                forall|k: int| 0 <= k < table@.len() ==> (#[trigger] table@[k]).name@ == method_table()[k].1,
                str_views(names@) == dedup(all.take(i as int)),
            decreases table@.len() - i,
        {
            let name = table[i].name;
            proof {
                assert(all.take(i + 1).drop_last() =~= all.take(i as int));
                assert(all.take(i + 1).last() == name@);
            }
            if !contains_str(&names, name) {
                names.push(name);
                assert(str_views(names@) =~= dedup(all.take(i + 1)));
            }
            i = i + 1;
        }
        assert(all.take(i as int) =~= all);
        names.push("new");
        assert(str_views(names@) =~= method_name_list());
        names
    }

    /// The untranslated default: every localized spelling is the canonical name.
    pub fn english() -> (r: Vocabulary)
        ensures
            r.model() == english_model(),
    {
        let keywords = default_keywords();
        let type_names = Self::canonical_type_names();
        let builtin_names = Self::canonical_builtin_names();
        let method_names = Self::canonical_method_names();
        let r = Vocabulary {
            keywords,
            types: identity_map(&type_names),
            types_out: identity_map(&type_names),
            builtins: identity_map(&builtin_names),
            builtins_out: identity_map(&builtin_names),
            methods: identity_map(&method_names),
            methods_out: identity_map(&method_names),
            messages: StrMap::new(),
        };
        assert(strs(r.messages@) =~= Map::<Seq<char>, Seq<char>>::empty());
        r
    }

    /// Normalizes a possibly localized type name to its canonical spelling;
    /// an unrecognized name passes through unchanged.
    pub fn canonical_type(&self, name: &str) -> (r: String)
        ensures
            r@ == lookup_or_self(self.model().types, name@),
    {
        lookup_cloned(&self.types, name)
    }

    /// Normalizes a possibly localized builtin (or `print`) name.
    pub fn canonical_builtin(&self, name: &str) -> (r: String)
        ensures
            r@ == lookup_or_self(self.model().builtins, name@),
    {
        lookup_cloned(&self.builtins, name)
    }

    /// Normalizes a possibly localized primitive-method (or `new`) name.
    pub fn canonical_method(&self, name: &str) -> (r: String)
        ensures
            r@ == lookup_or_self(self.model().methods, name@),
    {
        lookup_cloned(&self.methods, name)
    }

    /// The localized spelling of a canonical type word.
    fn localized_type_word(&self, canonical: &str) -> (r: String)
        ensures
            r@ == lookup_or_self(self.model().types_out, canonical@),
    {
        lookup_cloned(&self.types_out, canonical)
    }

    /// Renders a type with every primitive, array and compound word localized.
    pub fn localized_type_name(&self, ty: &Type) -> (r: String)
        ensures
            r@ == localized_type_display(self.model(), ty@),
        decreases ty,
    {
        match ty {
            Type::Array(elem) => {
                let mut r = self.localized_type_word("Array");
                push_str(&mut r, "<");
                let inner = self.localized_type_name(elem);
                push_str(&mut r, inner.as_str());
                push_str(&mut r, ">");
                r
            },
            Type::Pointer(elem) => {
                let mut r = self.localized_type_word("Ptr");
                push_str(&mut r, "<");
                let inner = self.localized_type_name(elem);
                push_str(&mut r, inner.as_str());
                push_str(&mut r, ">");
                r
            },
            Type::Instance(name) => name.clone(),
            _ => {
                let word = ty.display_name();
                self.localized_type_word(word.as_str())
            },
        }
    }

    /// Localizes a list of bare method names for a "no method (available: ...)" message.
    pub fn localized_method_names(&self, names: &[&str]) -> (r: Vec<String>)
        ensures
            r@.len() == names@.len(),
            forall|i: int| 0 <= i < r@.len() ==> (#[trigger] r@[i])@
                == lookup_or_self(self.model().methods_out, names@[i]@),
    {
        let mut r: Vec<String> = Vec::new();
        let mut i: usize = 0;
        while i < names.len()
            invariant
                i <= names@.len(),
                r@.len() == i,
                forall|k: int| 0 <= k < i ==> (#[trigger] r@[k])@
                    == lookup_or_self(self.model().methods_out, names@[k]@),
            decreases names@.len() - i,
        {
            r.push(lookup_cloned(&self.methods_out, names[i]));
            i = i + 1;
        }
        r
    }

    /// The localized spelling of the `true`/`false` keyword.
    pub fn bool_word(&self, value: bool) -> (r: String)
        ensures
            has_spelling_for(self.model().keywords, bool_token(value)) ==>
                self.model().keywords.contains_key(r@) && self.model().keywords[r@] == bool_token(value),
            !has_spelling_for(self.model().keywords, bool_token(value)) ==>
                r@ == (if value { "true"@ } else { "false"@ }),
    {
        let token = if value { KeywordToken::True } else { KeywordToken::False };
        let n = self.keywords.len();
        let mut i: usize = 0;
        while i < n
            invariant
                n == self.keywords.size(),
                token == bool_token(value),
                i <= n,
                forall|k: int| 0 <= k < i ==> (#[trigger] self.keywords.entry_seq()[k]).1 != token,
            decreases n - i,
        {
            let k = self.keywords.key_at(i);
            let v = self.keywords.value_at(i);
            if *v == token {
                let r = k.clone();
                assert(self.model().keywords.contains_key(r@) && self.model().keywords[r@] == token);
                return r;
            }
            i = i + 1;
        }
        proof {
            if has_spelling_for(self.model().keywords, token) {
                let k = choose|k: Seq<char>| #[trigger] self.model().keywords.contains_key(k)
                    && self.model().keywords[k] == token;
                use_type_invariant(&self.keywords);
                self.keywords.lemma_key_position(k);
                self.keywords.lemma_position_key(self.keywords.idx(k));
            }
        }
        if value { "true".to_owned() } else { "false".to_owned() }
    }
}

/// The keyword a boolean literal is spelled by.
pub open spec fn bool_token(value: bool) -> KeywordToken {
    if value { KeywordToken::True } else { KeywordToken::False }
}

/// Whether some spelling in `m` denotes `t`.
pub open spec fn has_spelling_for(m: Map<Seq<char>, KeywordToken>, t: KeywordToken) -> bool {
    exists|k: Seq<char>| #[trigger] m.contains_key(k) && m[k] == t
}

/// The value of `name` in `m`, or `name` itself when unmapped.
pub open spec fn lookup_or_self(m: Map<Seq<char>, Seq<char>>, name: Seq<char>) -> Seq<char> {
    if m.contains_key(name) { m[name] } else { name }
}

fn lookup_cloned(m: &StrMap<String>, name: &str) -> (r: String)
    ensures
        r@ == lookup_or_self(strs(m@), name@),
{
    match m.get(name) {
        Some(s) => s.clone(),
        None => name.to_owned(),
    }
}

/// A type's display name with each primitive, array and compound word localized.
pub open spec fn localized_type_display(m: VocabModel, t: TypeModel) -> Seq<char>
    decreases t,
{
    match t {
        TypeModel::Array(e) => lookup_or_self(m.types_out, "Array"@) + "<"@ + localized_type_display(m, *e) + ">"@,
        TypeModel::Pointer(e) => lookup_or_self(m.types_out, "Ptr"@) + "<"@ + localized_type_display(m, *e) + ">"@,
        TypeModel::Instance(n) => n,
        _ => lookup_or_self(m.types_out, crate::typechecker::type_display(t)),
    }
}

/// The template `msg` uses for `key`: the vocabulary's override, else the
/// English template, else the key itself.
pub open spec fn message_template(m: VocabModel, key: Seq<char>) -> Seq<char> {
    if m.messages.contains_key(key) {
        m.messages[key]
    } else {
        match english_template(key) {
            Some(t) => t,
            None => key,
        }
    }
}

impl Vocabulary {
    /// `key`'s message template (localized override, else English, else the
    /// key itself) with `args` substituted positionally.
    pub fn msg(&self, key: &str, args: &[&str]) -> (r: String)
        ensures
            r@ == substituted(message_template(self.model(), key@), views(args@)),
    {
        match self.messages.get(key) {
            Some(t) => substitute(t.as_str(), args),
            None => match lookup_english(key) {
                Some(t) => substitute(t, args),
                None => substitute(key, args),
            },
        }
    }
}

/// Which `[section]` a vocabulary line belongs to; lines before any header
/// belong to `Keywords`.
#[derive(Debug, Clone, Copy, PartialEq, Eq, Structural)]
pub enum Section {
    Keywords,
    Types,
    Builtins,
    Methods,
    Messages,
}

/// The section a header names.
pub open spec fn section_named(h: Seq<char>) -> Option<Section> {
    if h == "keywords"@ {
        Some(Section::Keywords)
    } else if h == "types"@ {
        Some(Section::Types)
    } else if h == "builtins"@ {
        Some(Section::Builtins)
    } else if h == "methods"@ {
        Some(Section::Methods)
    } else if h == "messages"@ {
        Some(Section::Messages)
    } else {
        None
    }
}

impl Section {
    /// The section a header names, if any.
    fn from_header(name: &str) -> (r: Option<Section>)
        ensures
            r == section_named(name@),
    {
        if str_eq(name, "keywords") {
            Some(Section::Keywords)
        } else if str_eq(name, "types") {
            Some(Section::Types)
        } else if str_eq(name, "builtins") {
            Some(Section::Builtins)
        } else if str_eq(name, "methods") {
            Some(Section::Methods)
        } else if str_eq(name, "messages") {
            Some(Section::Messages)
        } else {
            None
        }
    }
}

/// Where a vocabulary file's reading stands after some of its lines: the
/// current section, the vocabulary so far, and each keyword's current
/// spelling (indexed by `keyword_index`).
pub struct ParseState {
    pub section: Section,
    pub vocab: VocabModel,
    pub spelling: Seq<Seq<char>>,
}

/// Reading starts in `[keywords]`, from the English vocabulary.
pub open spec fn initial_state() -> ParseState {
    ParseState {
        section: Section::Keywords,
        vocab: english_model(),
        spelling: all_keywords().map_values(|t: KeywordToken| canonical_spelling(t)),
    }
}

/// A line's content: everything before its first `#`, trimmed.
pub open spec fn line_content(raw: Seq<char>) -> Seq<char> {
    trim(raw.take(first_index_of(raw, '#')))
}

/// Whether a line is a `[section]` header.
pub open spec fn is_header(line: Seq<char>) -> bool {
    line.len() >= 2 && line[0] == '[' && line.last() == ']'
}

/// The text between a header's brackets.
pub open spec fn header_text(line: Seq<char>) -> Seq<char> {
    line.subrange(1, line.len() - 1)
}

/// The message for a spelling already claimed by another name.
pub open spec fn already_used(localized: Seq<char>, owner: Seq<char>, canonical: Seq<char>) -> Seq<char> {
    "`"@ + localized + "` is already used for `"@ + owner + "`, cannot also mean `"@ + canonical + "`"@
}

/// One `[keywords]` line.
pub open spec fn keyword_entry(st: ParseState, canonical: Seq<char>, localized: Seq<char>, ln: nat)
    -> Result<ParseState, (Seq<char>, nat)>
{
    if !is_canonical_spelling(canonical) {
        Err(("unknown keyword `"@ + canonical + "`"@, ln))
    } else {
        let token = keyword_named(canonical);
        if st.vocab.keywords.contains_key(localized) && st.vocab.keywords[localized] != token {
            Err((already_used(localized, canonical_spelling(st.vocab.keywords[localized]), canonical), ln))
        } else {
            let old = st.spelling[keyword_index(token)];
            Ok(ParseState {
                vocab: VocabModel {
                    keywords: st.vocab.keywords.remove(old).insert(localized, token),
                    ..st.vocab
                },
                spelling: st.spelling.update(keyword_index(token), localized),
                ..st
            })
        }
    }
}

/// One `[types]`, `[builtins]` or `[methods]` line, over that section's
/// localized-to-canonical map and its canonical-to-localized reverse.
pub open spec fn name_entry(
    names: Seq<Seq<char>>,
    map: Map<Seq<char>, Seq<char>>,
    map_out: Map<Seq<char>, Seq<char>>,
    canonical: Seq<char>,
    localized: Seq<char>,
    ln: nat,
) -> Result<(Map<Seq<char>, Seq<char>>, Map<Seq<char>, Seq<char>>), (Seq<char>, nat)> {
    if !names.contains(canonical) {
        Err(("unknown name `"@ + canonical + "`"@, ln))
    } else if map.contains_key(localized) && map[localized] != canonical {
        Err((already_used(localized, map[localized], canonical), ln))
    } else {
        let old = lookup_or_self(map_out, canonical);
        Ok((map.remove(old).insert(localized, canonical), map_out.insert(canonical, localized)))
    }
}

/// One `canonical = localized` line, in the current section.
pub open spec fn entry_line(st: ParseState, canonical: Seq<char>, localized: Seq<char>, ln: nat)
    -> Result<ParseState, (Seq<char>, nat)>
{
    match st.section {
        Section::Keywords => keyword_entry(st, canonical, localized, ln),
        Section::Types => match name_entry(type_name_list(), st.vocab.types, st.vocab.types_out, canonical, localized, ln) {
            Ok((m, o)) => Ok(ParseState { vocab: VocabModel { types: m, types_out: o, ..st.vocab }, ..st }),
            Err(e) => Err(e),
        },
        Section::Builtins => match name_entry(builtin_name_list(), st.vocab.builtins, st.vocab.builtins_out, canonical, localized, ln) {
            Ok((m, o)) => Ok(ParseState { vocab: VocabModel { builtins: m, builtins_out: o, ..st.vocab }, ..st }),
            Err(e) => Err(e),
        },
        Section::Methods => match name_entry(method_name_list(), st.vocab.methods, st.vocab.methods_out, canonical, localized, ln) {
            Ok((m, o)) => Ok(ParseState { vocab: VocabModel { methods: m, methods_out: o, ..st.vocab }, ..st }),
            Err(e) => Err(e),
        },
        Section::Messages => if !is_message_key(canonical) {
            Err(("unknown message key `"@ + canonical + "`"@, ln))
        } else {
            Ok(ParseState { vocab: VocabModel { messages: st.vocab.messages.insert(canonical, localized), ..st.vocab }, ..st })
        },
    }
}

/// One line of a vocabulary file, numbered `ln`.
pub open spec fn vocab_line(st: ParseState, ln: nat, raw: Seq<char>) -> Result<ParseState, (Seq<char>, nat)> {
    let line = line_content(raw);
    if line.len() == 0 {
        Ok(st)
    } else if is_header(line) {
        match section_named(trim(header_text(line))) {
            Some(sec) => Ok(ParseState { section: sec, ..st }),
            None => Err(("unknown section `["@ + header_text(line) + "]`"@, ln)),
        }
    } else {
        let eq = first_index_of(line, '=');
        if eq >= line.len() {
            Err(("expected `canonical = localized`, found `"@ + line + "`"@, ln))
        } else {
            let canonical = trim(line.take(eq));
            let localized = trim(line.skip(eq + 1));
            if localized.len() == 0 {
                Err(("`"@ + canonical + "` has no translated spelling after `=`"@, ln))
            } else {
                entry_line(st, canonical, localized, ln)
            }
        }
    }
}

/// Reads `lines` in order, the first numbered `ln + 1`, stopping at the first error.
pub open spec fn vocab_lines(st: ParseState, lines: Seq<Seq<char>>, ln: nat) -> Result<ParseState, (Seq<char>, nat)>
    decreases lines.len(),
{
    if lines.len() == 0 {
        Ok(st)
    } else {
        match vocab_line(st, ln + 1, lines[0]) {
            Ok(next) => vocab_lines(next, lines.drop_first(), ln + 1),
            Err(e) => Err(e),
        }
    }
}

/// What a vocabulary file's text reads as: the final vocabulary, or the
/// first error's message and line.
pub open spec fn parsed_vocabulary(text: Seq<char>) -> Result<ParseState, (Seq<char>, nat)> {
    vocab_lines(initial_state(), lines_of(text), 0)
}

proof fn lemma_strs_insert(m: Map<Seq<char>, String>, k: Seq<char>, v: String)
    ensures
        strs(m.insert(k, v)) == strs(m).insert(k, v@),
{
    assert(strs(m.insert(k, v)) =~= strs(m).insert(k, v@));
}

proof fn lemma_strs_remove(m: Map<Seq<char>, String>, k: Seq<char>)
    ensures
        strs(m.remove(k)) == strs(m).remove(k),
{
    assert(strs(m.remove(k)) =~= strs(m).remove(k));
}

/// `a + b + c`, as a new string.
fn concat3(a: &str, b: &str, c: &str) -> (r: String)
    ensures
        r@ == a@ + b@ + c@,
{
    let mut r = String::new();
    push_str(&mut r, a);
    push_str(&mut r, b);
    push_str(&mut r, c);
    assert(r@ =~= a@ + b@ + c@);
    r
}

/// The message for a spelling already claimed by another name.
fn already_used_message(localized: &str, owner: &str, canonical: &str) -> (r: String)
    ensures
        r@ == already_used(localized@, owner@, canonical@),
{
    let mut r = String::new();
    push_str(&mut r, "`");
    push_str(&mut r, localized);
    push_str(&mut r, "` is already used for `");
    push_str(&mut r, owner);
    push_str(&mut r, "`, cannot also mean `");
    push_str(&mut r, canonical);
    push_str(&mut r, "`");
    assert(r@ =~= already_used(localized@, owner@, canonical@));
    r
}

/// The keyword whose canonical spelling is `canonical`, if there is one.
fn find_keyword(canonical: &str) -> (r: Option<KeywordToken>)
    ensures
        r is Some <==> is_canonical_spelling(canonical@),
        r matches Some(t) ==> t == keyword_named(canonical@),
{
    let all = KeywordToken::all();
    let mut i: usize = 0;
    while i < all.len()
        invariant
            all@ == all_keywords(),
            i <= all@.len(),
            forall|k: int| 0 <= k < i ==> canonical_spelling(#[trigger] all@[k]) != canonical@,
        decreases all@.len() - i,
    {
        let t = all[i];
        if str_eq(t.canonical_name(), canonical) {
            proof { lemma_keyword_named(t); }
            return Some(t);
        }
        i = i + 1;
    }
    proof {
        if is_canonical_spelling(canonical@) {
            let t = choose|t: KeywordToken| canonical_spelling(t) == canonical@;
            lemma_all_keywords_complete(t);
            assert(all@[keyword_index(t)] == t);
        }
    }
    None
}

/// The position of `t` in `all_keywords()`.
fn kw_index(t: KeywordToken) -> (r: usize)
    ensures
        r == keyword_index(t),
{
    match t {
        KeywordToken::Def => 0,
        KeywordToken::End => 1,
        KeywordToken::If => 2,
        KeywordToken::Elsif => 3,
        KeywordToken::Else => 4,
        KeywordToken::While => 5,
        KeywordToken::For => 6,
        KeywordToken::In => 7,
        KeywordToken::Const => 8,
        KeywordToken::Return => 9,
        KeywordToken::Nil => 10,
        KeywordToken::Import => 11,
        KeywordToken::Class => 12,
        KeywordToken::True => 13,
        KeywordToken::False => 14,
    }
}

/// Shared per-line logic for `[types]`, `[builtins]` and `[methods]`:
/// `canonical` must be a name the section knows, `localized` must not be
/// claimed by another name; then `localized` replaces `canonical`'s old
/// spelling in `map`, and `map_out` records the new spelling.
fn translate_entry(
    canonical: &str,
    localized: &str,
    line_number: usize,
    valid_names: &Vec<&'static str>,
    map: &mut StrMap<String>,
    map_out: &mut StrMap<String>,
) -> (r: Result<(), TranslationError>)
    ensures
        match name_entry(str_views(valid_names@), strs(old(map)@), strs(old(map_out)@), canonical@, localized@, line_number as nat) {
            Ok((m, o)) => r is Ok && strs(final(map)@) == m && strs(final(map_out)@) == o,
            Err((msg, l)) => r matches Err(e) && e.message@ == msg && e.line == l,
        },
{
    if !contains_str(valid_names, canonical) {
        return Err(TranslationError { message: concat3("unknown name `", canonical, "`"), line: line_number });
    }
    match map.get(localized) {
        Some(existing) => {
            if !str_eq(existing.as_str(), canonical) {
                return Err(TranslationError {
                    message: already_used_message(localized, existing.as_str(), canonical),
                    line: line_number,
                });
            }
        },
        None => {},
    }
    let old_spelling = lookup_cloned(map_out, canonical);
    let ghost m0 = map@;
    let ghost o0 = map_out@;
    map.remove(old_spelling.as_str());
    let ghost m1 = map@;
    map.insert(localized.to_owned(), canonical.to_owned());
    map_out.insert(canonical.to_owned(), localized.to_owned());
    proof {
        lemma_strs_remove(m0, old_spelling@);
        lemma_strs_insert(m1, localized@, map@[localized@]);
        lemma_strs_insert(o0, canonical@, map_out@[canonical@]);
    }
    Ok(())
}

/// The abstract reading state of the executable state.
pub open spec fn state_of(vocab: VocabModel, section: Section, spelling: Seq<String>) -> ParseState {
    ParseState { section, vocab, spelling: spelling.map_values(|s: String| s@) }
}

/// One `[keywords]` line.
fn keyword_line(
    vocab: &mut Vocabulary,
    spelling: &mut Vec<String>,
    section: Section,
    canonical: &str,
    localized: &str,
    line_number: usize,
) -> (r: Result<(), TranslationError>)
    requires
        old(spelling)@.len() == 15,
    ensures
        final(spelling)@.len() == 15,
        match keyword_entry(state_of(old(vocab).model(), section, old(spelling)@), canonical@, localized@, line_number as nat) {
            Ok(st) => r is Ok && state_of(final(vocab).model(), section, final(spelling)@) == st,
            Err((msg, l)) => r matches Err(e) && e.message@ == msg && e.line == l,
        },
{
    let ghost st = state_of(vocab.model(), section, spelling@);
    let token = match find_keyword(canonical) {
        Some(t) => t,
        None => {
            return Err(TranslationError { message: concat3("unknown keyword `", canonical, "`"), line: line_number });
        },
    };
    match vocab.keywords.get(localized) {
        Some(owner) => {
            if *owner != token {
                let owner_name = owner.canonical_name();
                return Err(TranslationError {
                    message: already_used_message(localized, owner_name, canonical),
                    line: line_number,
                });
            }
        },
        None => {},
    }
    let idx = kw_index(token);
    proof { lemma_all_keywords_complete(token); }
    let old_spelling = spelling[idx].clone();
    assert(old_spelling@ == st.spelling[keyword_index(token)]);
    vocab.keywords.remove(old_spelling.as_str());
    vocab.keywords.insert(localized.to_owned(), token);
    let ghost sp0 = spelling@;
    spelling.set(idx, localized.to_owned());
    proof {
        assert(spelling@.map_values(|s: String| s@) =~= sp0.map_values(|s: String| s@).update(keyword_index(token), localized@));
        let st2 = state_of(vocab.model(), section, spelling@);
        match keyword_entry(st, canonical@, localized@, line_number as nat) {
            Ok(e) => {
                assert(st2.vocab =~= e.vocab);
                assert(st2 == e);
            },
            Err(_) => {},
        }
    }
    Ok(())
}

/// One line of a vocabulary file.
fn vocab_line_exec(
    vocab: &mut Vocabulary,
    section: &mut Section,
    spelling: &mut Vec<String>,
    raw: &Vec<char>,
    line_number: usize,
    type_names: &Vec<&'static str>,
    builtin_names: &Vec<&'static str>,
    method_names: &Vec<&'static str>,
) -> (r: Result<(), TranslationError>)
    requires
        old(spelling)@.len() == 15,
        str_views(type_names@) == type_name_list(),
        str_views(builtin_names@) == builtin_name_list(),
        str_views(method_names@) == method_name_list(),
    ensures
        final(spelling)@.len() == 15,
        match vocab_line(state_of(old(vocab).model(), *old(section), old(spelling)@), line_number as nat, raw@) {
            Ok(st) => r is Ok && state_of(final(vocab).model(), *final(section), final(spelling)@) == st,
            Err((msg, l)) => r matches Err(e) && e.message@ == msg && e.line == l,
        },
{
    let ghost st = state_of(vocab.model(), *section, spelling@);
    let hash = find_char_from(raw, 0, '#');
    assert(raw@.skip(0) =~= raw@);
    assert(raw@.take(first_index_of(raw@, '#')) =~= raw@.subrange(0, hash as int));
    let line = trim_range(raw, 0, hash);
    assert(line@ == line_content(raw@));
    let n = line.len();
    if n == 0 {
        return Ok(());
    }
    if n >= 2 && line[0] == '[' && line[n - 1] == ']' {
        let header = string_from_range(&line, 1, n - 1);
        let trimmed = trim_range(&line, 1, n - 1);
        let trimmed_str = string_from_chars(&trimmed);
        match Section::from_header(trimmed_str.as_str()) {
            Some(sec) => {
                *section = sec;
                return Ok(());
            },
            None => {
                return Err(TranslationError {
                    message: concat3("unknown section `[", header.as_str(), "]`"),
                    line: line_number,
                });
            },
        }
    }
    let eq = find_char_from(&line, 0, '=');
    assert(line@.skip(0) =~= line@);
    if eq == n {
        let line_str = string_from_chars(&line);
        return Err(TranslationError {
            message: concat3("expected `canonical = localized`, found `", line_str.as_str(), "`"),
            line: line_number,
        });
    }
    assert(line@.take(eq as int) =~= line@.subrange(0, eq as int));
    assert(line@.skip(eq + 1) =~= line@.subrange(eq + 1, n as int));
    let canonical_chars = trim_range(&line, 0, eq);
    let localized_chars = trim_range(&line, eq + 1, n);
    let canonical = string_from_chars(&canonical_chars);
    let localized = string_from_chars(&localized_chars);
    if localized_chars.len() == 0 {
        return Err(TranslationError {
            message: concat3("`", canonical.as_str(), "` has no translated spelling after `=`"),
            line: line_number,
        });
    }
    match *section {
        Section::Keywords => keyword_line(vocab, spelling, *section, canonical.as_str(), localized.as_str(), line_number),
        Section::Types => translate_entry(
            canonical.as_str(),
            localized.as_str(),
            line_number,
            type_names,
            &mut vocab.types,
            &mut vocab.types_out,
        ),
        Section::Builtins => translate_entry(
            canonical.as_str(),
            localized.as_str(),
            line_number,
            builtin_names,
            &mut vocab.builtins,
            &mut vocab.builtins_out,
        ),
        Section::Methods => translate_entry(
            canonical.as_str(),
            localized.as_str(),
            line_number,
            method_names,
            &mut vocab.methods,
            &mut vocab.methods_out,
        ),
        Section::Messages => {
            if lookup_english(canonical.as_str()).is_none() {
                return Err(TranslationError {
                    message: concat3("unknown message key `", canonical.as_str(), "`"),
                    line: line_number,
                });
            }
            let ghost m0 = vocab.messages@;
            vocab.messages.insert(canonical.clone(), localized.clone());
            proof {
                lemma_strs_insert(m0, canonical@, localized);
            }
            Ok(())
        },
    }
}

/// Parses a vocabulary file's text: `[section]` headers (`keywords`,
/// `types`, `builtins`, `methods`, `messages`) and `canonical = localized`
/// lines, `#` starting a comment and blank lines ignored; lines before the
/// first header belong to `[keywords]`.
pub fn parse_vocabulary(text: &str) -> (r: Result<Vocabulary, TranslationError>)
    ensures
        match parsed_vocabulary(text@) {
            Ok(st) => r matches Ok(v) && v.model() == st.vocab,
            Err((msg, l)) => r matches Err(e) && e.message@ == msg && e.line == l,
        },
{
    let mut vocab = Vocabulary::english();
    let mut section = Section::Keywords;
    let all = KeywordToken::all();
    let mut spelling: Vec<String> = Vec::new();
    let mut k: usize = 0;
    while k < all.len()
        invariant
            all@ == all_keywords(),
            k <= all@.len(),
            spelling@.len() == k,
            forall|j: int| 0 <= j < k ==> (#[trigger] spelling@[j])@ == canonical_spelling(all@[j]),
        decreases all@.len() - k,
    {
        spelling.push(all[k].canonical_name().to_owned());
        k = k + 1;
    }
    assert(spelling@.map_values(|s: String| s@) =~= all_keywords().map_values(|t: KeywordToken| canonical_spelling(t)));
    let type_names = Vocabulary::canonical_type_names();
    let builtin_names = Vocabulary::canonical_builtin_names();
    let method_names = Vocabulary::canonical_method_names();
    let chars = chars_of(text);
    let lines = split_lines(&chars);
    let ghost all_lines = lines_of(text@);
    assert(lines@.map_values(|l: Vec<char>| l@) == all_lines);
    assert(all_lines.skip(0) =~= all_lines);
    let mut i: usize = 0;
    while i < lines.len()
        invariant
            i <= lines@.len(),
            lines@.map_values(|l: Vec<char>| l@) == all_lines,
            all_lines == lines_of(text@),
            spelling@.len() == 15,
            str_views(type_names@) == type_name_list(),
            str_views(builtin_names@) == builtin_name_list(),
            str_views(method_names@) == method_name_list(),
            parsed_vocabulary(text@) == vocab_lines(state_of(vocab.model(), section, spelling@), all_lines.skip(i as int), i as nat),
        decreases lines@.len() - i,
    {
        let ghost rest = all_lines.skip(i as int);
        assert(rest[0] == lines@[i as int]@);
        assert(rest.drop_first() =~= all_lines.skip(i + 1));
        let step = vocab_line_exec(
            &mut vocab,
            &mut section,
            &mut spelling,
            &lines[i],
            i + 1,
            &type_names,
            &builtin_names,
            &method_names,
        );
        match step {
            Ok(()) => {},
            Err(e) => {
                return Err(e);
            },
        }
        i = i + 1;
    }
    assert(all_lines.skip(i as int).len() == 0);
    Ok(vocab)
}

/// Parses a vocabulary file and keeps only its keyword table.
pub fn parse_keyword_file(text: &str) -> (r: Result<KeywordMap, TranslationError>)
    ensures
        match parsed_vocabulary(text@) {
            Ok(st) => r matches Ok(m) && m@ == st.vocab.keywords,
            Err((msg, l)) => r matches Err(e) && e.message@ == msg && e.line == l,
        },
{
    match parse_vocabulary(text) {
        Ok(v) => Ok(v.keywords),
        Err(e) => Err(e),
    }
}

/// Each keyword has exactly one spelling in `keywords`, namely `spelling[keyword_index(t)]`.
pub open spec fn keyword_bijection(keywords: Map<Seq<char>, KeywordToken>, spelling: Seq<Seq<char>>) -> bool {
    &&& spelling.len() == 15
    &&& forall|t: KeywordToken| #[trigger] keywords.contains_key(spelling[keyword_index(t)])
        && keywords[spelling[keyword_index(t)]] == t
    &&& forall|k: Seq<char>| #[trigger] keywords.contains_key(k) ==> spelling[keyword_index(keywords[k])] == k
}

proof fn lemma_keyword_index_injective(a: KeywordToken, b: KeywordToken)
    ensures
        keyword_index(a) == keyword_index(b) ==> a == b,
{
}

proof fn lemma_initial_bijection()
    ensures
        keyword_bijection(initial_state().vocab.keywords, initial_state().spelling),
{
    let st = initial_state();
    assert forall|t: KeywordToken| #[trigger] st.vocab.keywords.contains_key(st.spelling[keyword_index(t)])
        && st.vocab.keywords[st.spelling[keyword_index(t)]] == t by {
        lemma_all_keywords_complete(t);
        lemma_keyword_named(t);
        assert(st.spelling[keyword_index(t)] == canonical_spelling(t));
    }
    assert forall|k: Seq<char>| #[trigger] st.vocab.keywords.contains_key(k)
        implies st.spelling[keyword_index(st.vocab.keywords[k])] == k by {
        let t = choose|t: KeywordToken| canonical_spelling(t) == k;
        lemma_keyword_named(t);
        lemma_all_keywords_complete(t);
    }
}

proof fn lemma_line_keeps_bijection(st: ParseState, ln: nat, raw: Seq<char>)
    requires
        keyword_bijection(st.vocab.keywords, st.spelling),
    ensures
        vocab_line(st, ln, raw) matches Ok(next) ==> keyword_bijection(next.vocab.keywords, next.spelling),
{
    let line = line_content(raw);
    if line.len() > 0 && !is_header(line) {
        let eq = first_index_of(line, '=');
        if eq < line.len() && st.section == Section::Keywords {
            let canonical = trim(line.take(eq));
            let localized = trim(line.skip(eq + 1));
            if localized.len() > 0 && is_canonical_spelling(canonical) {
                let token = keyword_named(canonical);
                let kw = st.vocab.keywords;
                if !(kw.contains_key(localized) && kw[localized] != token) {
                    let old = st.spelling[keyword_index(token)];
                    let kw2 = kw.remove(old).insert(localized, token);
                    let sp2 = st.spelling.update(keyword_index(token), localized);
                    lemma_all_keywords_complete(token);
                    assert forall|t: KeywordToken| #[trigger] kw2.contains_key(sp2[keyword_index(t)])
                        && kw2[sp2[keyword_index(t)]] == t by {
                        lemma_all_keywords_complete(t);
                        lemma_keyword_index_injective(t, token);
                        if t != token {
                            let s_t = st.spelling[keyword_index(t)];
                            assert(st.vocab.keywords.contains_key(st.spelling[keyword_index(t)]));
                            assert(kw.contains_key(s_t) && kw[s_t] == t);
                            assert(s_t != old);
                            assert(s_t != localized);
                        }
                    }
                    assert forall|k: Seq<char>| #[trigger] kw2.contains_key(k)
                        implies sp2[keyword_index(kw2[k])] == k by {
                        if k != localized {
                            let t2 = kw[k];
                            lemma_all_keywords_complete(t2);
                            lemma_keyword_index_injective(t2, token);
                        }
                    }
                }
            }
        }
    }
}

proof fn lemma_lines_keep_bijection(st: ParseState, lines: Seq<Seq<char>>, ln: nat)
    requires
        keyword_bijection(st.vocab.keywords, st.spelling),
    ensures
        vocab_lines(st, lines, ln) matches Ok(fin) ==> keyword_bijection(fin.vocab.keywords, fin.spelling),
    decreases lines.len(),
{
    if lines.len() > 0 {
        lemma_line_keeps_bijection(st, ln + 1, lines[0]);
        match vocab_line(st, ln + 1, lines[0]) {
            Ok(next) => lemma_lines_keep_bijection(next, lines.drop_first(), ln + 1),
            Err(_) => {},
        }
    }
}

/// A successfully read vocabulary spells every keyword exactly one way: the
/// keyword table pairs each keyword with one spelling and every spelling
/// with one keyword.
pub proof fn lemma_parsed_keywords_bijective(text: Seq<char>)
    ensures
        parsed_vocabulary(text) matches Ok(st) ==> keyword_bijection(st.vocab.keywords, st.spelling),
{
    lemma_initial_bijection();
    lemma_lines_keep_bijection(initial_state(), lines_of(text), 0);
}

/// A keyword table paired with fifteen spellings, one per keyword, holds
/// exactly those fifteen spellings as its keys, each once.
proof fn lemma_bijection_count(keywords: Map<Seq<char>, KeywordToken>, spelling: Seq<Seq<char>>)
    requires
        keyword_bijection(keywords, spelling),
    ensures
        spelling.no_duplicates(),
        keywords.dom() == spelling.to_set(),
        keywords.dom().len() == 15,
{
    assert forall|i: int| 0 <= i < 15 implies keyword_index(#[trigger] all_keywords()[i]) == i by {
        let t = all_keywords()[i];
        lemma_all_keywords_complete(t);
    }
    assert forall|i: int, j: int| 0 <= i < spelling.len() && 0 <= j < spelling.len() && i != j
        implies spelling[i] != spelling[j] by {
        let a = all_keywords()[i];
        let b = all_keywords()[j];
        assert(keyword_index(a) == i);
        assert(keyword_index(b) == j);
        lemma_all_keywords_complete(a);
        assert(keywords.contains_key(spelling[keyword_index(a)]));
        assert(keywords.contains_key(spelling[keyword_index(b)]));
        assert(keywords[spelling[i]] == a);
        assert(keywords[spelling[j]] == b);
    }
    assert forall|k: Seq<char>| keywords.dom().contains(k) <==> spelling.to_set().contains(k) by {
        if keywords.contains_key(k) {
            let t = keywords[k];
            lemma_all_keywords_complete(t);
            assert(spelling[keyword_index(t)] == k);
        }
        if spelling.to_set().contains(k) {
            let i = choose|i: int| 0 <= i < spelling.len() && spelling[i] == k;
            let t = all_keywords()[i];
            assert(keyword_index(t) == i);
            assert(keywords.contains_key(spelling[keyword_index(t)]));
        }
    }
    assert(keywords.dom() =~= spelling.to_set());
    spelling.unique_seq_to_set();
}

/// A successfully read vocabulary's keyword table has exactly one key per
/// keyword: fifteen in all.
pub proof fn lemma_parsed_keywords_count(text: Seq<char>)
    ensures
        parsed_vocabulary(text) matches Ok(st) ==> st.vocab.keywords.dom().finite()
            && st.vocab.keywords.dom().len() == 15,
{
    lemma_parsed_keywords_bijective(text);
    if let Ok(st) = parsed_vocabulary(text) {
        lemma_bijection_count(st.vocab.keywords, st.spelling);
    }
}

/// The English vocabulary maps every registry name to itself, in every table.
pub proof fn lemma_english_round_trips(name: Seq<char>)
    ensures
        type_name_list().contains(name) ==> lookup_or_self(english_model().types, name) == name
            && lookup_or_self(english_model().types_out, name) == name,
        builtin_name_list().contains(name) ==> lookup_or_self(english_model().builtins, name) == name,
        method_name_list().contains(name) ==> lookup_or_self(english_model().methods, name) == name,
        !type_name_list().contains(name) ==> lookup_or_self(english_model().types, name) == name,
{
}

} // verus!
