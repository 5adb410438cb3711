//! Rustc-style error rendering shared by every stage: a header, the
//! offending source line with a caret under the column, and, for runtime
//! errors, the same for every call-stack frame.
//!
//! Positions are virtual lines once imports are spliced in: a
//! [`SourceMap`] gives every file a disjoint line range, and resolves a
//! virtual line back to its file and local line.

use vstd::prelude::*;
use crate::text::{chars_of, split_lines, lines_of, decimal, repeat_char, repeat_char_string, push_str, usize_to_decimal};
use crate::translations::{Vocabulary, VocabModel, message_template};
use crate::messages::{substituted, views};

verus! {

/// A source position: 1-indexed line (virtual once imports are spliced) and column.
#[derive(Debug, Clone, Copy, PartialEq, Eq, Structural)]
pub struct Span {
    pub line: usize,
    pub column: usize,
}

impl Span {
    /// The span at `line`/`column`.
    pub open spec fn new_spec(line: usize, column: usize) -> Span {
        Span { line, column }
    }

    /// A span at `line`/`column`.
    pub fn new(line: usize, column: usize) -> (r: Span)
        ensures
            r == Span::new_spec(line, column),
    {
        Span { line, column }
    }
}

/// `line:column: message`, the one-line form of a positioned error.
pub open spec fn located_message(line: nat, column: nat, message: Seq<char>) -> Seq<char> {
    decimal(line) + ":"@ + decimal(column) + ": "@ + message
}

/// Renders `line:column: message`.
pub fn display_located(line: usize, column: usize, message: &str) -> (r: String)
    ensures
        r@ == located_message(line as nat, column as nat, message@),
{
    let mut out = usize_to_decimal(line);
    push_str(&mut out, ":");
    let c = usize_to_decimal(column);
    push_str(&mut out, c.as_str());
    push_str(&mut out, ": ");
    push_str(&mut out, message);
    out
}

/// One file registered in a [`SourceMap`].
#[derive(Debug, Clone)]
pub struct SourceFile {
    /// First virtual line this file occupies (1 for the entry file).
    pub start_line: usize,
    /// Display path used in diagnostic headers.
    pub path: String,
    /// The file's full source text.
    pub source: String,
}

/// The abstract value of a registered file: start line, path, source.
pub open spec fn file_model(f: SourceFile) -> (nat, Seq<char>, Seq<char>) {
    (f.start_line as nat, f.path@, f.source@)
}

/// Maps virtual diagnostic lines back to their file and local line.
#[derive(Debug)]
pub struct SourceMap {
    files: Vec<SourceFile>,
}

/// The files, in registration order.
pub open spec fn files_model(files: Seq<SourceFile>) -> Seq<(nat, Seq<char>, Seq<char>)> {
    files.map_values(|f: SourceFile| file_model(f))
}

/// Every registered range starts after the one registered before it.
pub open spec fn ascending(files: Seq<(nat, Seq<char>, Seq<char>)>) -> bool {
    forall|i: int, j: int| 0 <= i < j < files.len() ==> #[trigger] files[i].0 < #[trigger] files[j].0
}

/// The number of virtual lines a file occupies: its line count, at least 1.
pub open spec fn line_span(source: Seq<char>) -> nat {
    if lines_of(source).len() == 0 { 1 } else { lines_of(source).len() }
}

/// The file that owns virtual line `line`: the last one registered whose
/// range starts at or before it, or the entry file.
pub open spec fn owner_index(files: Seq<(nat, Seq<char>, Seq<char>)>, line: nat) -> int
    decreases files.len(),
{
    if files.len() <= 1 {
        0
    } else if files.last().0 <= line {
        files.len() - 1
    } else {
        owner_index(files.drop_last(), line)
    }
}

/// The local line of virtual line `line` in a file starting at `start`.
pub open spec fn local_line(start: nat, line: nat) -> nat {
    if line >= start { (line - start + 1) as nat } else { 0 }
}

impl SourceMap {
    /// The registered files, in registration order.
    pub closed spec fn files(&self) -> Seq<(nat, Seq<char>, Seq<char>)> {
        files_model(self.files@)
    }

    /// The entry file comes first, at line 1, and ranges start in ascending order.
    #[verifier::type_invariant]
    closed spec fn wf(&self) -> bool {
        &&& self.files@.len() > 0
        &&& self.files@[0].start_line == 1
        &&& ascending(self.files())
    }

    /// Where the next registered file would start.
    pub open spec fn next_start(&self) -> nat {
        self.files().last().0 + line_span(self.files().last().2)
    }

    /// A map holding just the entry file, at virtual lines from 1.
    pub fn new(entry_path: &str, entry_source: &str) -> (r: SourceMap)
        ensures
            r.files() == seq![(1nat, entry_path@, entry_source@)],
            ascending(r.files()),
    {
        let r = SourceMap {
            files: vec![SourceFile { start_line: 1, path: entry_path.to_owned(), source: entry_source.to_owned() }],
        };
        assert(r.files() =~= seq![(1nat, entry_path@, entry_source@)]);
        r
    }

    /// The line count of `source`, at least 1.
    fn span_of(source: &String) -> (r: usize)
        ensures
            r == line_span(source@),
    {
        let chars = chars_of(source.as_str());
        let lines = split_lines(&chars);
        assert(lines@.map_values(|l: Vec<char>| l@).len() == lines@.len());
        if lines.len() == 0 { 1 } else { lines.len() }
    }

    /// Where the next registered file would start, or `None` when that line
    /// number is past `usize::MAX`.
    pub fn next_start_line(&self) -> (r: Option<usize>)
        ensures
            r is Some <==> self.next_start() <= usize::MAX,
            r matches Some(n) ==> n == self.next_start(),
    {
        proof { use_type_invariant(self); }
        let last = &self.files[self.files.len() - 1];
        let span = Self::span_of(&last.source);
        last.start_line.checked_add(span)
    }

    /// Registers an imported file after every file added so far and returns
    /// the line offset its positions must be shifted by (local + offset =
    /// virtual). The file occupies its own line count, at least 1.
    pub fn add_file(&mut self, path: String, source: String) -> (r: usize)
        requires
            old(self).next_start() <= usize::MAX,
        ensures
            final(self).files() == old(self).files().push((old(self).next_start(), path@, source@)),
            r == old(self).next_start() - 1,
            ascending(final(self).files()),
    {
        proof { use_type_invariant(&*self); }
        let n = self.files.len();
        let span = Self::span_of(&self.files[n - 1].source);
        let start_line = self.files[n - 1].start_line + span;
        let ghost before = self.files();
        let ghost entry = (start_line as nat, path@, source@);
        let mut files = vec![SourceFile { start_line: 1, path: String::new(), source: String::new() }];
        std::mem::swap(&mut files, &mut self.files);
        files.push(SourceFile { start_line, path, source });
        assert(files_model(files@) =~= before.push(entry));
        proof {
            assert forall|i: int, j: int| 0 <= i < j < before.push(entry).len()
                implies #[trigger] before.push(entry)[i].0 < #[trigger] before.push(entry)[j].0 by {
                if j == before.len() && i < before.len() - 1 {
                    assert(before[i].0 < before[before.len() - 1].0);
                }
            }
        }
        self.files = files;
        start_line - 1
    }

    /// The file owning virtual line `line`.
    pub fn lookup(&self, line: usize) -> (r: &SourceFile)
        ensures
            file_model(*r) == self.files()[owner_index(self.files(), line as nat)],
            r.start_line >= 1,
    {
        proof { use_type_invariant(self); }
        let mut i = self.files.len();
        assert(self.files().take(i as int) =~= self.files());
        while i > 1
            invariant
                1 <= i <= self.files@.len(),
                owner_index(self.files(), line as nat) == owner_index(self.files().take(i as int), line as nat),
                ascending(self.files()),
                self.files()[0].0 == 1,
            decreases i,
        {
            assert(self.files().take(i as int).last() == file_model(self.files@[i - 1]));
            assert(self.files().take(i as int).drop_last() =~= self.files().take(i - 1));
            if self.files[i - 1].start_line <= line {
                assert(self.files()[0].0 <= self.files()[i - 1].0);
                return &self.files[i - 1];
            }
            i = i - 1;
        }
        &self.files[0]
    }
}

impl Clone for SourceMap {
    fn clone(&self) -> (r: Self)
        ensures
            r.files() == self.files(),
    {
        proof { use_type_invariant(self); }
        let mut files: Vec<SourceFile> = Vec::new();
        let mut i: usize = 0;
        while i < self.files.len()
            invariant
                i <= self.files@.len(),
                files@.len() == i,
                files_model(files@) == self.files().take(i as int),
            decreases self.files@.len() - i,
        {
            let f = &self.files[i];
            let path = f.path.clone();
            let source = f.source.clone();
            files.push(SourceFile { start_line: f.start_line, path, source });
            assert(file_model(files@[i as int]) == self.files()[i as int]);
            assert(files_model(files@) =~= self.files().take(i + 1));
            i = i + 1;
        }
        assert(files_model(files@) =~= self.files());
        assert(file_model(files@[0]) == self.files()[0]);
        SourceMap { files }
    }
}

/// Lookup law: a virtual line inside the range of the `k`-th registered
/// file (from its start up to, not including, the next file's start)
/// resolves to that file.
pub proof fn lemma_lookup_in_range(files: Seq<(nat, Seq<char>, Seq<char>)>, k: int, line: nat)
    requires
        ascending(files),
        0 <= k < files.len(),
        files[k].0 <= line,
        k + 1 < files.len() ==> line < files[k + 1].0,
    ensures
        owner_index(files, line) == k,
    decreases files.len(),
{
    if files.len() > 1 {
        let n = files.len() - 1;
        if files.last().0 <= line {
            if k < n {
                assert(files[k + 1].0 <= files[n].0) by {
                    if k + 1 < n {
                        assert(files[k + 1].0 < files[n].0);
                    }
                }
            }
        } else {
            let rest = files.drop_last();
            assert forall|i: int, j: int| 0 <= i < j < rest.len() implies #[trigger] rest[i].0 < #[trigger] rest[j].0 by {
                assert(files[i].0 < files[j].0);
            }
            lemma_lookup_in_range(rest, k, line);
        }
    }
}

/// One entry in a call-stack trace: the active function's name and its call site.
#[derive(Debug, Clone)]
pub struct Frame {
    pub name: String,
    pub span: Span,
}

/// Anything that renders as a rustc-style error. Each method returns what
/// its spec function names; every impl in this library defines those spec
/// functions, and the defaults only let impls written outside Verus compile
/// (such an impl is trusted to keep its methods and specs in step).
pub trait Diagnostic {
    /// The stage label, as characters.
    open spec fn kind_spec(&self) -> Seq<char> {
        Seq::empty()
    }
    /// The message, as characters.
    open spec fn message_spec(&self) -> Seq<char> {
        Seq::empty()
    }
    /// The primary source position.
    open spec fn span_spec(&self) -> Span {
        Span::new_spec(0, 0)
    }
    /// The call-stack frames as (name, line, column), innermost first.
    open spec fn frames_spec(&self) -> Seq<(Seq<char>, nat, nat)> {
        Seq::empty()
    }

    /// Short stage label shown before the message, e.g. `"type error"`.
    fn kind(&self) -> (r: &str)
        ensures
            r@ == self.kind_spec(),
    ;

    /// The message, without any position.
    fn message(&self) -> (r: &str)
        ensures
            r@ == self.message_spec(),
    ;

    /// The primary source position.
    fn span(&self) -> (r: Span)
        ensures
            r == self.span_spec(),
    ;

    /// Call-stack frames, innermost first.
    fn frames(&self) -> (r: Vec<Frame>)
        ensures
            frames_model(r@) == self.frames_spec(),
    ;
}

/// One source line with a caret under `column`, gutter-aligned; empty when
/// `line` is past the end of `source` (line 0 shows the first line).
pub open spec fn snippet(source: Seq<char>, line: nat, column: nat) -> Seq<char> {
    let ls = lines_of(source);
    let idx: int = if line == 0 { 0 } else { line - 1 };
    if idx >= ls.len() {
        Seq::empty()
    } else {
        let gutter = decimal(line);
        let pad = repeat_char(' ', gutter.len());
        let caret_pad = repeat_char(' ', if column == 0 { 0 } else { (column - 1) as nat });
        pad + " |\n"@ + gutter + " | "@ + ls[idx] + "\n"@ + pad + " | "@ + caret_pad + "^\n"@
    }
}

/// Renders a single source line with a caret under `column`.
pub fn render_snippet(source: &str, line: usize, column: usize) -> (r: String)
    ensures
        r@ == snippet(source@, line as nat, column as nat),
{
    let chars = chars_of(source);
    let lines = split_lines(&chars);
    let idx: usize = if line == 0 { 0 } else { line - 1 };
    let ghost ls = lines_of(source@);
    assert(lines@.map_values(|l: Vec<char>| l@) == ls);
    if idx >= lines.len() {
        return String::new();
    }
    let gutter = usize_to_decimal(line);
    let pad = repeat_char_string(' ', gutter.unicode_len());
    let caret_pad = repeat_char_string(' ', if column == 0 { 0 } else { column - 1 });
    let mut out = String::new();
    push_str(&mut out, pad.as_str());
    push_str(&mut out, " |\n");
    push_str(&mut out, gutter.as_str());
    push_str(&mut out, " | ");
    let text = crate::text::string_from_chars(&lines[idx]);
    assert(text@ == ls[idx as int]);
    push_str(&mut out, text.as_str());
    push_str(&mut out, "\n");
    push_str(&mut out, pad.as_str());
    push_str(&mut out, " | ");
    push_str(&mut out, caret_pad.as_str());
    push_str(&mut out, "^\n");
    assert(out@ =~= snippet(source@, line as nat, column as nat));
    out
}

/// `path:local:column`, a newline and the snippet, for virtual `line`.
pub open spec fn located(files: Seq<(nat, Seq<char>, Seq<char>)>, line: nat, column: nat) -> Seq<char> {
    let f = files[owner_index(files, line)];
    let local = local_line(f.0, line);
    f.1 + ":"@ + decimal(local) + ":"@ + decimal(column) + "\n"@ + snippet(f.2, local, column)
}

/// A position line and its snippet: `  --> path:local:column` then the snippet.
pub open spec fn position_text(files: Seq<(nat, Seq<char>, Seq<char>)>, line: nat, column: nat) -> Seq<char> {
    "  --> "@ + located(files, line, column)
}

/// One trace entry: `  in `name` at path:local:column` and its snippet.
pub open spec fn frame_line(
    files: Seq<(nat, Seq<char>, Seq<char>)>,
    frame: (Seq<char>, nat, nat),
    in_word: Seq<char>,
    at_word: Seq<char>,
) -> Seq<char> {
    "  "@ + in_word + " `"@ + frame.0 + "` "@ + at_word + " "@ + located(files, frame.1, frame.2)
}

/// The trace lines for `frames`, in order.
pub open spec fn frames_text(
    files: Seq<(nat, Seq<char>, Seq<char>)>,
    frames: Seq<(Seq<char>, nat, nat)>,
    in_word: Seq<char>,
    at_word: Seq<char>,
) -> Seq<char>
    decreases frames.len(),
{
    if frames.len() == 0 {
        Seq::empty()
    } else {
        frames_text(files, frames.drop_last(), in_word, at_word) + frame_line(files, frames.last(), in_word, at_word)
    }
}

/// The frames as (name, line, column).
pub open spec fn frames_model(frames: Seq<Frame>) -> Seq<(Seq<char>, nat, nat)> {
    frames.map_values(|f: Frame| (f.name@, f.span.line as nat, f.span.column as nat))
}

/// The catalog key of a stage label, if it has one.
pub open spec fn kind_key(kind: Seq<char>) -> Option<Seq<char>> {
    if kind == "lex error"@ {
        Some("diag/lex-error"@)
    } else if kind == "parse error"@ {
        Some("diag/parse-error"@)
    } else if kind == "type error"@ {
        Some("diag/type-error"@)
    } else if kind == "runtime error"@ {
        Some("diag/runtime-error"@)
    } else if kind == "import error"@ {
        Some("diag/import-error"@)
    } else if kind == "keyword translation error"@ {
        Some("diag/keyword-translation-error"@)
    } else {
        None
    }
}

/// The stage label as shown: localized through the vocabulary when there is one.
pub open spec fn shown_kind(kind: Seq<char>, vocab: Option<VocabModel>) -> Seq<char> {
    match vocab {
        None => kind,
        Some(m) => match kind_key(kind) {
            Some(key) => substituted(message_template(m, key), Seq::empty()),
            None => kind,
        },
    }
}

/// The word before a frame's name (`in`) and before its position (`at`).
pub open spec fn frame_words(vocab: Option<VocabModel>) -> (Seq<char>, Seq<char>) {
    match vocab {
        None => ("in"@, "at"@),
        Some(m) => (
            substituted(message_template(m, "diag/frame-in"@), Seq::empty()),
            substituted(message_template(m, "diag/frame-at"@), Seq::empty()),
        ),
    }
}

/// A whole rendered diagnostic.
pub open spec fn report_text(
    kind: Seq<char>,
    message: Seq<char>,
    span: Span,
    frames: Seq<(Seq<char>, nat, nat)>,
    files: Seq<(nat, Seq<char>, Seq<char>)>,
    vocab: Option<VocabModel>,
) -> Seq<char> {
    shown_kind(kind, vocab) + ": "@ + message + "\n"@ + position_text(files, span.line as nat, span.column as nat)
        + frames_text(files, frames, frame_words(vocab).0, frame_words(vocab).1)
}

/// The vocabulary's model, if there is one.
pub open spec fn vocab_model(vocab: Option<&Vocabulary>) -> Option<VocabModel> {
    match vocab {
        Some(v) => Some(v.model()),
        None => None,
    }
}

/// The stage label, localized through `vocab` when there is one.
fn localized_kind(kind: &str, vocab: Option<&Vocabulary>) -> (r: String)
    ensures
        r@ == shown_kind(kind@, vocab_model(vocab)),
{
    let v = match vocab {
        None => {
            return kind.to_owned();
        },
        Some(v) => v,
    };
    let empty: [&str; 0] = [];
    assert(views(empty@) =~= Seq::<Seq<char>>::empty());
    let key = if crate::text::str_eq(kind, "lex error") {
        "diag/lex-error"
    } else if crate::text::str_eq(kind, "parse error") {
        "diag/parse-error"
    } else if crate::text::str_eq(kind, "type error") {
        "diag/type-error"
    } else if crate::text::str_eq(kind, "runtime error") {
        "diag/runtime-error"
    } else if crate::text::str_eq(kind, "import error") {
        "diag/import-error"
    } else if crate::text::str_eq(kind, "keyword translation error") {
        "diag/keyword-translation-error"
    } else {
        return kind.to_owned();
    };
    v.msg(key, &empty)
}

/// Appends a position (`path:local:column` and the snippet) for virtual `line`.
fn push_position(out: &mut String, map: &SourceMap, line: usize, column: usize)
    ensures
        final(out)@ == old(out)@ + located(map.files(), line as nat, column as nat),
{
    let file = map.lookup(line);
    let local: usize = if line >= file.start_line { line - file.start_line + 1 } else { 0 };
    let ghost o = out@;
    push_str(out, file.path.as_str());
    push_str(out, ":");
    let l = usize_to_decimal(local);
    push_str(out, l.as_str());
    push_str(out, ":");
    let c = usize_to_decimal(column);
    push_str(out, c.as_str());
    push_str(out, "\n");
    let snip = render_snippet(file.source.as_str(), local, column);
    push_str(out, snip.as_str());
    let ghost f = map.files()[owner_index(map.files(), line as nat)];
    assert(out@ =~= o + f.1 + ":"@ + decimal(local as nat) + ":"@ + decimal(column as nat) + "\n"@
        + snippet(f.2, local as nat, column as nat));
}

/// Appends one trace entry for `frame`.
fn push_frame(out: &mut String, map: &SourceMap, frame: &Frame, in_word: &str, at_word: &str)
    ensures
        final(out)@ == old(out)@ + frame_line(
            map.files(),
            (frame.name@, frame.span.line as nat, frame.span.column as nat),
            in_word@,
            at_word@,
        ),
{
    let ghost o = out@;
    push_str(out, "  ");
    push_str(out, in_word);
    push_str(out, " `");
    push_str(out, frame.name.as_str());
    push_str(out, "` ");
    push_str(out, at_word);
    push_str(out, " ");
    push_position(out, map, frame.span.line, frame.span.column);
    assert(out@ =~= o + frame_line(
        map.files(),
        (frame.name@, frame.span.line as nat, frame.span.column as nat),
        in_word@,
        at_word@,
    ));
}

/// Renders a diagnostic from its parts, every position resolved through `map`.
pub fn render_report(
    kind: &str,
    message: &str,
    span: Span,
    frames: &Vec<Frame>,
    map: &SourceMap,
    vocab: Option<&Vocabulary>,
) -> (r: String)
    ensures
        r@ == report_text(kind@, message@, span, frames_model(frames@), map.files(), vocab_model(vocab)),
{
    let mut out = localized_kind(kind, vocab);
    push_str(&mut out, ": ");
    push_str(&mut out, message);
    push_str(&mut out, "\n");
    push_str(&mut out, "  --> ");
    push_position(&mut out, map, span.line, span.column);
    let ghost head = out@;
    let empty: [&str; 0] = [];
    assert(views(empty@) =~= Seq::<Seq<char>>::empty());
    let (in_word, at_word) = match vocab {
        Some(v) => (v.msg("diag/frame-in", &empty), v.msg("diag/frame-at", &empty)),
        None => ("in".to_owned(), "at".to_owned()),
    };
    let ghost words = frame_words(vocab_model(vocab));
    assert(in_word@ == words.0 && at_word@ == words.1);
    let mut i: usize = 0;
    assert(frames_model(frames@).take(0) =~= Seq::<(Seq<char>, nat, nat)>::empty());
    while i < frames.len()
        invariant
            i <= frames@.len(),
            in_word@ == words.0,
            at_word@ == words.1,
            out@ == head + frames_text(map.files(), frames_model(frames@).take(i as int), words.0, words.1),
        decreases frames@.len() - i,
    {
        let frame = &frames[i];
        push_frame(&mut out, map, frame, in_word.as_str(), at_word.as_str());
        proof {
            let fm = frames_model(frames@);
            assert(fm.take(i + 1).drop_last() =~= fm.take(i as int));
            assert(fm.take(i + 1).last() == (frame.name@, frame.span.line as nat, frame.span.column as nat));
            assert(head + frames_text(map.files(), fm.take(i + 1), words.0, words.1) =~= head
                + frames_text(map.files(), fm.take(i as int), words.0, words.1)
                + frame_line(map.files(), fm.take(i + 1).last(), words.0, words.1));
        }
        i = i + 1;
    }
    assert(frames_model(frames@).take(i as int) =~= frames_model(frames@));
    assert(out@ =~= report_text(kind@, message@, span, frames_model(frames@), map.files(), vocab_model(vocab)));
    out
}

/// Renders `diag` with every position resolved through `map`, localizing
/// the stage label and the frame words through `vocab` when given: the
/// report of the diagnostic's own kind, message, span and frames.
pub fn render_with_map_and_vocab<D: Diagnostic>(diag: &D, map: &SourceMap, vocab: Option<&Vocabulary>) -> (r: String)
    ensures
        r@ == report_text(diag.kind_spec(), diag.message_spec(), diag.span_spec(), diag.frames_spec(), map.files(),
            vocab_model(vocab)),
{
    let span = diag.span();
    let frames = diag.frames();
    let r = render_report(diag.kind(), diag.message(), span, &frames, map, vocab);
    r
}

/// Like [`render_with_map_and_vocab`], without localization.
pub fn render_with_map<D: Diagnostic>(diag: &D, map: &SourceMap) -> (r: String)
    ensures
        r@ == report_text(diag.kind_spec(), diag.message_spec(), diag.span_spec(), diag.frames_spec(), map.files(), None),
{
    render_with_map_and_vocab(diag, map, None)
}

/// Renders `diag` against a single file, `path` with text `source`.
pub fn render<D: Diagnostic>(diag: &D, path: &str, source: &str) -> (r: String)
    ensures
        r@ == report_text(diag.kind_spec(), diag.message_spec(), diag.span_spec(), diag.frames_spec(),
            seq![(1nat, path@, source@)], None),
{
    let map = SourceMap::new(path, source);
    render_with_map_and_vocab(diag, &map, None)
}

} // verus!
