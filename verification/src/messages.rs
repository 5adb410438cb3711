//! The English message catalog and positional placeholder substitution.
//!
//! Every catalogued diagnostic has a stable `stage/kebab-name` key and an
//! English template with positional `{0}`, `{1}`, ... placeholders. A
//! vocabulary's `[messages]` section may override any of them; a key it
//! does not mention falls back to the template here.

use vstd::prelude::*;
use crate::text::{str_eq, push_char, push_str, chars_of, usize_to_decimal, decimal};

verus! {

/// `(key, English template)` pairs, keyed by stage (`lex/`, `parse/`,
/// `resolve/`, `type/`, `runtime/`, `diag/`).
pub open spec fn catalog() -> Seq<(Seq<char>, Seq<char>)> {
    seq![
        ("lex/unterminated-string"@, "unterminated string literal"@),
        ("lex/unexpected-character"@, "unexpected character `{0}`"@),
        ("lex/invalid-escape-sequence"@, "invalid escape sequence `\\{0}`"@),
        ("lex/invalid-integer-literal"@, "invalid integer literal `{0}`"@),
        ("parse/expected-found"@, "expected {0}, found {1}"@),
        ("parse/expected-identifier-found"@, "expected identifier, found {0}"@),
        ("parse/unexpected-eof-expected-end"@, "unexpected end of input, expected `end`"@),
        ("resolve/import-cycle"@, "import cycle detected: `{0}`"@),
        ("type/undefined-variable"@, "undefined variable `{0}`"@),
        ("type/unknown-type"@, "unknown type `{0}`"@),
        ("type/no-method-available"@, "`{0}` has no method `{1}` (available: {2})"@),
        ("type/inheritance-cycle"@, "inheritance cycle detected: class `{0}` is circular"@),
        ("runtime/undefined-variable"@, "undefined variable `{0}`"@),
        ("runtime/division-by-zero"@, "division by zero"@),
        ("runtime/no-method-for-value"@, "no method `{0}` for this value"@),
        ("diag/lex-error"@, "lex error"@),
        ("diag/parse-error"@, "parse error"@),
        ("diag/type-error"@, "type error"@),
        ("diag/runtime-error"@, "runtime error"@),
        ("diag/import-error"@, "import error"@),
        ("diag/keyword-translation-error"@, "keyword translation error"@),
        ("diag/frame-in"@, "in"@),
        ("diag/frame-at"@, "at"@),
    ]
}

/// The catalog as executable data, in catalog order.
pub fn messages() -> (r: Vec<(&'static str, &'static str)>)
    ensures
        r@.len() == catalog().len(),
        forall|i: int| 0 <= i < r@.len() ==> (#[trigger] r@[i]).0@ == catalog()[i].0
            && r@[i].1@ == catalog()[i].1,
{
    vec![
        ("lex/unterminated-string", "unterminated string literal"),
        ("lex/unexpected-character", "unexpected character `{0}`"),
        ("lex/invalid-escape-sequence", "invalid escape sequence `\\{0}`"),
        ("lex/invalid-integer-literal", "invalid integer literal `{0}`"),
        ("parse/expected-found", "expected {0}, found {1}"),
        ("parse/expected-identifier-found", "expected identifier, found {0}"),
        ("parse/unexpected-eof-expected-end", "unexpected end of input, expected `end`"),
        ("resolve/import-cycle", "import cycle detected: `{0}`"),
        ("type/undefined-variable", "undefined variable `{0}`"),
        ("type/unknown-type", "unknown type `{0}`"),
        ("type/no-method-available", "`{0}` has no method `{1}` (available: {2})"),
        ("type/inheritance-cycle", "inheritance cycle detected: class `{0}` is circular"),
        ("runtime/undefined-variable", "undefined variable `{0}`"),
        ("runtime/division-by-zero", "division by zero"),
        ("runtime/no-method-for-value", "no method `{0}` for this value"),
        ("diag/lex-error", "lex error"),
        ("diag/parse-error", "parse error"),
        ("diag/type-error", "type error"),
        ("diag/runtime-error", "runtime error"),
        ("diag/import-error", "import error"),
        ("diag/keyword-translation-error", "keyword translation error"),
        ("diag/frame-in", "in"),
        ("diag/frame-at", "at"),
    ]
}

/// Whether `key` is a catalogued message key.
pub open spec fn is_message_key(key: Seq<char>) -> bool {
    exists|i: int| 0 <= i < catalog().len() && #[trigger] catalog()[i].0 == key
}

/// The English template of a catalogued key (the first entry with that key).
pub open spec fn english_template(key: Seq<char>) -> Option<Seq<char>> {
    first_template(catalog(), key)
}

/// The template of the first entry of `entries` whose key is `key`.
pub open spec fn first_template(entries: Seq<(Seq<char>, Seq<char>)>, key: Seq<char>) -> Option<Seq<char>>
    decreases entries.len(),
{
    if entries.len() == 0 {
        None
    } else if entries[0].0 == key {
        Some(entries[0].1)
    } else {
        first_template(entries.drop_first(), key)
    }
}

proof fn lemma_first_template_some(entries: Seq<(Seq<char>, Seq<char>)>, key: Seq<char>)
    ensures
        first_template(entries, key) is Some <==>
            exists|i: int| 0 <= i < entries.len() && #[trigger] entries[i].0 == key,
    decreases entries.len(),
{
    if entries.len() > 0 {
        lemma_first_template_some(entries.drop_first(), key);
        if entries[0].0 != key {
            if exists|i: int| 0 <= i < entries.len() && #[trigger] entries[i].0 == key {
                let i = choose|i: int| 0 <= i < entries.len() && #[trigger] entries[i].0 == key;
                assert(entries.drop_first()[i - 1].0 == key);
            }
            if exists|i: int| 0 <= i < entries.drop_first().len() && #[trigger] entries.drop_first()[i].0 == key {
                let i = choose|i: int| 0 <= i < entries.drop_first().len() && #[trigger] entries.drop_first()[i].0 == key;
                assert(entries[i + 1].0 == key);
            }
        }
    }
}

/// Looks up the English template of `key` in the catalog.
pub fn lookup_english(key: &str) -> (r: Option<&'static str>)
    ensures
        r is None <==> english_template(key@) is None,
        r matches Some(t) ==> english_template(key@) == Some(t@),
        r is Some <==> is_message_key(key@),
{
    let table = messages();
    let mut i: usize = 0;
    proof { lemma_first_template_some(catalog(), key@); }
    assert(catalog().skip(0) =~= catalog());
    while i < table.len()
        invariant
            i <= table@.len(),
            table@.len() == catalog().len(),
            forall|k: int| 0 <= k < table@.len() ==> (#[trigger] table@[k]).0@ == catalog()[k].0
                && table@[k].1@ == catalog()[k].1,
            first_template(catalog().skip(i as int), key@) == english_template(key@),
            first_template(catalog(), key@) is Some <==>
                exists|k: int| 0 <= k < catalog().len() && #[trigger] catalog()[k].0 == key@,
        decreases table@.len() - i,
    {
        assert(catalog().skip(i as int)[0] == catalog()[i as int]);
        assert(catalog().skip(i as int).drop_first() =~= catalog().skip(i + 1));
        if str_eq(table[i].0, key) {
            return Some(table[i].1);
        }
        i = i + 1;
    }
    assert(catalog().skip(i as int).len() == 0);
    None
}

/// The placeholder `{i}`.
pub open spec fn placeholder(i: nat) -> Seq<char> {
    seq!['{'] + decimal(i) + seq!['}']
}

/// `s` with every non-overlapping occurrence of `pat` (scanned left to right)
/// replaced by `rep`, as `str::replace` does for a non-empty pattern.
pub open spec fn replace_all(s: Seq<char>, pat: Seq<char>, rep: Seq<char>) -> Seq<char>
    recommends
        pat.len() > 0,
    decreases s.len(),
{
    if s.len() == 0 || pat.len() == 0 {
        s
    } else if pat.len() <= s.len() && s.take(pat.len() as int) == pat {
        rep + replace_all(s.skip(pat.len() as int), pat, rep)
    } else {
        seq![s[0]] + replace_all(s.skip(1), pat, rep)
    }
}

/// `template` with `{0}` replaced by `args[0]`, then `{1}` by `args[1]`,
/// and so on, one placeholder at a time over the result so far.
pub open spec fn substituted(template: Seq<char>, args: Seq<Seq<char>>) -> Seq<char>
    decreases args.len(),
{
    if args.len() == 0 {
        template
    } else {
        replace_all(substituted(template, args.drop_last()), placeholder((args.len() - 1) as nat), args.last())
    }
}

/// Replaces every occurrence of `pat` in `s` by `rep`.
pub fn replace_str(s: &str, pat: &str, rep: &str) -> (r: String)
    requires
        pat@.len() > 0,
    ensures
        r@ == replace_all(s@, pat@, rep@),
{
    let sv = chars_of(s);
    let pv = chars_of(pat);
    let mut out = String::new();
    let mut i: usize = 0;
    let n = sv.len();
    let m = pv.len();
    assert(s@.skip(0) =~= s@);
    assert(out@ + replace_all(s@, pat@, rep@) =~= replace_all(s@, pat@, rep@));
    while i < n
        invariant
            sv@ == s@,
            pv@ == pat@,
            n == sv@.len(),
            m == pv@.len(),
            m > 0,
            i <= n,
            replace_all(s@, pat@, rep@) == out@ + replace_all(s@.skip(i as int), pat@, rep@),
        decreases n - i,
    {
        let ghost rest = s@.skip(i as int);
        // Does the pattern match at position i?
        let mut matched = m <= n - i;
        let mut j: usize = 0;
        while matched && j < m
            invariant
                sv@ == s@,
                pv@ == pat@,
                n == sv@.len(),
                m == pv@.len(),
                i < n,
                j <= m,
                matched ==> m <= n - i,
                matched ==> forall|k: int| 0 <= k < j ==> sv@[i + k] == pv@[k],
                !matched ==> !(m <= n - i && rest.take(m as int) == pat@),
                rest == s@.skip(i as int),
            decreases m - j,
        {
            if sv[i + j] != pv[j] {
                matched = false;
                proof {
                    assert(rest.take(m as int)[j as int] == sv@[i + j]);
                }
            }
            j = j + 1;
        }
        if matched {
            assert(rest.take(m as int) =~= pat@) by {
                assert forall|k: int| 0 <= k < m implies rest.take(m as int)[k] == pat@[k] by {
                    assert(rest[k] == sv@[i + k]);
                }
            }
            push_str(&mut out, rep);
            assert(rest.skip(m as int) =~= s@.skip(i + m));
            i = i + m;
        } else {
            push_char(&mut out, sv[i]);
            assert(rest.skip(1) =~= s@.skip(i + 1));
            assert(out@ =~= out@.drop_last() + seq![rest[0]]);
            i = i + 1;
        }
    }
    assert(s@.skip(n as int).len() == 0);
    assert(out@ + replace_all(s@.skip(i as int), pat@, rep@) =~= out@);
    out
}

/// Builds the placeholder `{i}`.
fn placeholder_string(i: usize) -> (r: String)
    ensures
        r@ == placeholder(i as nat),
{
    let mut r = String::new();
    push_char(&mut r, '{');
    let d = usize_to_decimal(i);
    push_str(&mut r, d.as_str());
    push_char(&mut r, '}');
    assert(r@ =~= placeholder(i as nat));
    r
}

proof fn lemma_placeholder_nonempty(i: nat)
    ensures
        placeholder(i).len() > 0,
{
}

/// `pat` occurs in `s` at some position.
pub open spec fn occurs(s: Seq<char>, pat: Seq<char>) -> bool {
    exists|j: int| 0 <= j && j + pat.len() <= s.len() && #[trigger] s.subrange(j, j + pat.len()) == pat
}

/// Replacing a pattern that does not occur changes nothing.
proof fn lemma_replace_absent(s: Seq<char>, pat: Seq<char>, rep: Seq<char>)
    requires
        !occurs(s, pat),
    ensures
        replace_all(s, pat, rep) == s,
    decreases s.len(),
{
    if s.len() == 0 || pat.len() == 0 {
    } else if pat.len() <= s.len() && s.take(pat.len() as int) == pat {
        assert(s.subrange(0int, 0int + pat.len()) =~= s.take(pat.len() as int));
    } else {
        let t = s.skip(1);
        assert forall|j: int| 0 <= j && j + pat.len() <= t.len() implies #[trigger] t.subrange(j, j + pat.len()) != pat by {
            assert(t.subrange(j, j + pat.len()) =~= s.subrange(j + 1, j + 1 + pat.len()));
        }
        lemma_replace_absent(t, pat, rep);
        assert(seq![s[0]] + t =~= s);
    }
}

/// A template none of whose placeholders `{0}`..`{n-1}` occurs in it comes
/// back verbatim from substituting `n` arguments; with no arguments every
/// template comes back verbatim, whatever placeholders it holds.
pub proof fn lemma_template_without_placeholders_kept(template: Seq<char>, args: Seq<Seq<char>>)
    requires
        forall|i: nat| i < args.len() ==> !occurs(template, #[trigger] placeholder(i)),
    ensures
        substituted(template, args) == template,
    decreases args.len(),
{
    if args.len() > 0 {
        lemma_template_without_placeholders_kept(template, args.drop_last());
        lemma_replace_absent(template, placeholder((args.len() - 1) as nat), args.last());
    }
}

/// The views of a slice of string slices.
pub open spec fn views(args: Seq<&str>) -> Seq<Seq<char>> {
    args.map_values(|a: &str| a@)
}

/// Substitutes `{0}`, `{1}`, ... in `template` with `args`, in order.
pub fn substitute(template: &str, args: &[&str]) -> (r: String)
    ensures
        r@ == substituted(template@, views(args@)),
{
    let mut result = String::new();
    push_str(&mut result, template);
    assert(result@ =~= template@);
    let mut i: usize = 0;
    while i < args.len()
        invariant
            i <= args@.len(),
            result@ == substituted(template@, views(args@).take(i as int)),
        decreases args@.len() - i,
    {
        let p = placeholder_string(i);
        proof { lemma_placeholder_nonempty(i as nat); }
        let next = replace_str(result.as_str(), p.as_str(), args[i]);
        proof {
            let t = views(args@).take(i + 1);
            assert(t.drop_last() =~= views(args@).take(i as int));
            assert(t.last() == args@[i as int]@);
        }
        result = next;
        i = i + 1;
    }
    assert(views(args@).take(args@.len() as int) =~= views(args@));
    result
}

} // verus!
