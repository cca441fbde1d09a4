//! The failure value a parse returns: a primitive cause plus a diagnostic
//! trail of the composite rules that were being parsed when it arose.

use vstd::prelude::*;

verus! {

/// The primitive cause of a parse failure.
#[derive(Debug, Clone, Copy, PartialEq, Eq, Structural)]
pub enum ErrorKind {
    /// An expected literal or punctuation character was not found.
    Syntax,
    /// An integer literal's value exceeds the signed 64-bit range.
    NumericOverflow,
    /// A backslash was followed by a character outside the escape set.
    UnrecognizedEscape,
    /// A unicode escape's hex value has no valid Unicode scalar mapping.
    InvalidUnicodeScalar,
    /// An object key violates the identifier shape (its first character
    /// inside the quotes must be an ASCII letter, the rest alphanumeric or
    /// underscore).
    MalformedKey,
    /// Input ended inside a string, array or object, before its closing
    /// delimiter.
    Unterminated,
    /// The nesting depth of the document exceeds the configured maximum.
    DepthExceeded,
}

/// Names the composite rule a context frame was recorded for.
#[derive(Debug, Clone, Copy, PartialEq, Eq, Structural)]
pub enum RuleLabel {
    StringRule,
    ArrayRule,
    ObjectRule,
}

/// The model of one context frame: a rule label and the input offset at
/// which that rule was entered.
pub ghost struct SpecFrame {
    pub label: RuleLabel,
    pub offset: int,
}

/// The model of a parse failure: the primitive cause's kind, the offset at
/// which it arose, and the context frames from innermost to outermost.
pub ghost struct SpecError {
    pub kind: ErrorKind,
    pub offset: int,
    pub stack: Seq<SpecFrame>,
}

impl SpecError {
    /// A failure with no context recorded yet.
    pub open spec fn fresh(kind: ErrorKind, offset: int) -> SpecError {
        SpecError { kind, offset, stack: Seq::empty() }
    }

    /// The same failure, with one more (outer) context frame recorded.
    pub open spec fn pushed(self, label: RuleLabel, offset: int) -> SpecError {
        SpecError { kind: self.kind, offset: self.offset, stack: self.stack.push(SpecFrame { label, offset }) }
    }
}

/// One recorded context frame: which composite rule was entered, and at
/// which input offset (in characters).
#[derive(Debug, PartialEq, Eq)]
pub struct ContextFrame {
    pub label: RuleLabel,
    pub offset: usize,
}

impl View for ContextFrame {
    type V = SpecFrame;

    open spec fn view(&self) -> SpecFrame {
        SpecFrame { label: self.label, offset: self.offset as int }
    }
}

/// A parse failure: the primitive cause and where it arose, plus the stack
/// of composite rules that were open at that point, innermost first.
#[derive(Debug, PartialEq, Eq)]
pub struct ParseError {
    pub kind: ErrorKind,
    pub offset: usize,
    pub context: Vec<ContextFrame>,
}

impl View for ParseError {
    type V = SpecError;

    open spec fn view(&self) -> SpecError {
        SpecError {
            kind: self.kind,
            offset: self.offset as int,
            stack: Seq::new(self.context@.len(), |i: int| (
                if 0 <= i < self.context@.len() {
                    self.context@[i]@
                } else {
                    SpecFrame { label: RuleLabel::StringRule, offset: 0 }
                }
            )),
        }
    }
}

impl ParseError {
    /// A failure with an empty context stack.
    pub fn new(kind: ErrorKind, offset: usize) -> (r: ParseError)
        ensures
            r@ == SpecError::fresh(kind, offset as int),
    {
        let r = ParseError { kind, offset, context: Vec::new() };
        proof {
            assert(r@.stack =~= Seq::<SpecFrame>::empty());
        }
        r
    }

    /// Records one more (outer) context frame on the way out of a rule.
    pub fn push_frame(&mut self, label: RuleLabel, offset: usize)
        ensures
            final(self)@ == old(self)@.pushed(label, offset as int),
    {
        let ghost before = self@;
        self.context.push(ContextFrame { label, offset });
        proof {
            assert(self@.stack =~= before.stack.push(
                SpecFrame { label, offset: offset as int },
            ));
        }
    }
}

} // verus!
