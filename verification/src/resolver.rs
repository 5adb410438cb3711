//! The import stage's error: a missing or cyclic `import`.

use vstd::prelude::*;
use crate::diagnostics::{Diagnostic, Span, Frame, frames_model, located_message, display_located};

verus! {

/// An import failure at the `import` statement's line and column.
#[derive(Debug, Clone, PartialEq)]
pub struct ResolveError {
    pub message: String,
    pub line: usize,
    pub column: usize,
}

impl ResolveError {
    /// `line:column: message`, the error's one-line form.
    pub fn display(&self) -> (r: String)
        ensures
            r@ == located_message(self.line as nat, self.column as nat, self.message@),
    {
        display_located(self.line, self.column, self.message.as_str())
    }
}

impl Diagnostic for ResolveError {
    open spec fn kind_spec(&self) -> Seq<char> {
        "import error"@
    }

    open spec fn message_spec(&self) -> Seq<char> {
        self.message@
    }

    open spec fn span_spec(&self) -> Span {
        Span::new_spec(self.line, self.column)
    }

    open spec fn frames_spec(&self) -> Seq<(Seq<char>, nat, nat)> {
        Seq::empty()
    }

    fn kind(&self) -> (r: &str)
        ensures
            r@ == "import error"@,
    {
        "import error"
    }

    fn message(&self) -> (r: &str)
        ensures
            r@ == self.message@,
    {
        self.message.as_str()
    }

    fn span(&self) -> (r: Span)
        ensures
            r == Span::new_spec(self.line, self.column),
    {
        Span::new(self.line, self.column)
    }

    /// No call stack: a stage error has no frames.
    fn frames(&self) -> (r: Vec<Frame>)
        ensures
            frames_model(r@) == self.frames_spec(),
    {
        let r: Vec<Frame> = Vec::new();
        assert(frames_model(r@) =~= Seq::<(Seq<char>, nat, nat)>::empty());
        r
    }
}

} // verus!
