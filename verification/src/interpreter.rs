//! The run stage's error: a runtime failure with the call stack that led to it.

use vstd::prelude::*;
use crate::diagnostics::{Diagnostic, Span, Frame, frames_model};
use crate::text::{decimal, push_str, usize_to_decimal};

verus! {

/// One active call: the function or method's name and its call site.
#[derive(Debug, Clone)]
pub struct StackFrame {
    pub function_name: String,
    pub line: usize,
    pub column: usize,
}

/// A runtime failure at a line and column, with the calls active when it
/// was raised, outermost first.
#[derive(Debug, Clone)]
pub struct RuntimeError {
    pub message: String,
    pub line: usize,
    pub column: usize,
    pub call_stack: Vec<StackFrame>,
}

/// The call stack as (name, line, column), outermost first.
pub open spec fn stack_model(stack: Seq<StackFrame>) -> Seq<(Seq<char>, nat, nat)> {
    stack.map_values(|f: StackFrame| (f.function_name@, f.line as nat, f.column as nat))
}

/// The trace lines of a call stack, innermost call first.
pub open spec fn trace_text(stack: Seq<(Seq<char>, nat, nat)>) -> Seq<char>
    decreases stack.len(),
{
    if stack.len() == 0 {
        Seq::empty()
    } else {
        let f = stack.last();
        "  in `"@ + f.0 + "` at "@ + decimal(f.1) + ":"@ + decimal(f.2) + "\n"@ + trace_text(stack.drop_last())
    }
}

impl RuntimeError {
    /// The multi-line report: the message, where it happened, then every
    /// active call from the innermost out.
    pub fn display(&self) -> (r: String)
        ensures
            r@ == "error: "@ + self.message@ + "\n  at "@ + decimal(self.line as nat) + ":"@
                + decimal(self.column as nat) + "\n"@ + trace_text(stack_model(self.call_stack@)),
    {
        let mut out = String::new();
        push_str(&mut out, "error: ");
        push_str(&mut out, self.message.as_str());
        push_str(&mut out, "\n  at ");
        let l = usize_to_decimal(self.line);
        push_str(&mut out, l.as_str());
        push_str(&mut out, ":");
        let c = usize_to_decimal(self.column);
        push_str(&mut out, c.as_str());
        push_str(&mut out, "\n");
        let ghost head = out@;
        let ghost stack = stack_model(self.call_stack@);
        let mut i = self.call_stack.len();
        assert(stack.take(i as int) =~= stack);
        assert(stack.skip(i as int) =~= Seq::<(Seq<char>, nat, nat)>::empty());
        while i > 0
            invariant
                i <= self.call_stack@.len(),
                stack == stack_model(self.call_stack@),
                out@ + trace_text(stack.take(i as int)) == head + trace_text(stack),
            decreases i,
        {
            let f = &self.call_stack[i - 1];
            let ghost o = out@;
            push_str(&mut out, "  in `");
            push_str(&mut out, f.function_name.as_str());
            push_str(&mut out, "` at ");
            let fl = usize_to_decimal(f.line);
            push_str(&mut out, fl.as_str());
            push_str(&mut out, ":");
            let fc = usize_to_decimal(f.column);
            push_str(&mut out, fc.as_str());
            push_str(&mut out, "\n");
            proof {
                let t = stack.take(i as int);
                assert(t.drop_last() =~= stack.take(i - 1));
                assert(t.last() == (f.function_name@, f.line as nat, f.column as nat));
                assert(out@ =~= o + "  in `"@ + t.last().0 + "` at "@ + decimal(t.last().1) + ":"@
                    + decimal(t.last().2) + "\n"@);
                assert(o + trace_text(t) =~= out@ + trace_text(stack.take(i - 1)));
            }
            i = i - 1;
        }
        assert(stack.take(0) =~= Seq::<(Seq<char>, nat, nat)>::empty());
        assert(out@ =~= head + trace_text(stack));
        out
    }
}

impl Diagnostic for RuntimeError {
    open spec fn kind_spec(&self) -> Seq<char> {
        "runtime error"@
    }

    open spec fn message_spec(&self) -> Seq<char> {
        self.message@
    }

    open spec fn span_spec(&self) -> Span {
        Span::new_spec(self.line, self.column)
    }

    open spec fn frames_spec(&self) -> Seq<(Seq<char>, nat, nat)> {
        Seq::new(self.call_stack@.len(), |i: int| stack_model(self.call_stack@)[self.call_stack@.len() - 1 - i])
    }

    fn kind(&self) -> (r: &str)
        ensures
            r@ == "runtime error"@,
    {
        "runtime error"
    }

    fn message(&self) -> (r: &str)
        ensures
            r@ == self.message@,
    {
        self.message.as_str()
    }

    fn span(&self) -> (r: Span)
        ensures
            r == Span::new_spec(self.line, self.column),
    {
        Span::new(self.line, self.column)
    }

    /// The call stack innermost first: the reverse of the order it was pushed in.
    fn frames(&self) -> (r: Vec<Frame>)
        ensures
            frames_model(r@).len() == self.call_stack@.len(),
            forall|i: int| 0 <= i < self.call_stack@.len() ==> #[trigger] frames_model(r@)[i]
                == stack_model(self.call_stack@)[self.call_stack@.len() - 1 - i],
    {
        let mut out: Vec<Frame> = Vec::new();
        let n = self.call_stack.len();
        let mut i = n;
        while i > 0
            invariant
                i <= n,
                n == self.call_stack@.len(),
                out@.len() == n - i,
                forall|k: int| 0 <= k < n - i ==> #[trigger] frames_model(out@)[k]
                    == stack_model(self.call_stack@)[n - 1 - k],
            decreases i,
        {
            let f = &self.call_stack[i - 1];
            let name = f.function_name.clone();
            let ghost before = out@;
            let ghost fr = Frame { name, span: Span::new_spec(f.line, f.column) };
            out.push(Frame { name, span: Span::new(f.line, f.column) });
            proof {
                assert forall|k: int| 0 <= k < n - i + 1 implies #[trigger] frames_model(out@)[k]
                    == stack_model(self.call_stack@)[n - 1 - k] by {
                    if k < n - i {
                        assert(out@[k] == before[k]);
                        assert(frames_model(before)[k] == stack_model(self.call_stack@)[n - 1 - k]);
                    } else {
                        assert(out@[k] == fr);
                    }
                }
            }
            i = i - 1;
        }
        assert(frames_model(out@) =~= self.frames_spec());
        out
    }
}

} // verus!
