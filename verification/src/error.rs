//! What can go wrong while a template is rendered.

use crate::syntax::Span;
use crate::text::{decimal, push_decimal};
use vstd::prelude::*;
use vstd::string::StringExecFns;

verus! {

/// The kinds of failure that a caller can tell apart.
#[derive(Clone, Copy, Debug, PartialEq, Eq, Structural)]
pub enum ErrorKind {
    /// An identifier that no scope frame and not the document binds.
    UndefinedVariable,
    /// A key or an index that its container does not hold.
    UndefinedPath,
    /// A value of a kind that the place does not take.
    TypeMismatch,
    /// A call of a function that the registry does not hold.
    UnknownFunction,
    /// A node that the interpreter does not carry out.
    UnsupportedConstruct,
}

/// The precise reason of a failure.
#[derive(Clone, Copy, Debug, PartialEq, Eq, Structural)]
pub enum Cause {
    VariableNotFound,
    KeyNotFound,
    LeftOperandNotNumber,
    RightOperandNotNumber,
    OperandsNotComparable,
    KeyNotString,
    PredicateNotBoolean,
    NotIterable,
    NotPrintable,
    MissingArgument,
    UnknownFunction,
    Unsupported,
}

impl Cause {
    pub open spec fn spec_kind(self) -> ErrorKind {
        match self {
            Cause::VariableNotFound => ErrorKind::UndefinedVariable,
            Cause::KeyNotFound => ErrorKind::UndefinedPath,
            Cause::LeftOperandNotNumber => ErrorKind::TypeMismatch,
            Cause::RightOperandNotNumber => ErrorKind::TypeMismatch,
            Cause::OperandsNotComparable => ErrorKind::TypeMismatch,
            Cause::KeyNotString => ErrorKind::TypeMismatch,
            Cause::PredicateNotBoolean => ErrorKind::TypeMismatch,
            Cause::NotIterable => ErrorKind::TypeMismatch,
            Cause::NotPrintable => ErrorKind::TypeMismatch,
            Cause::MissingArgument => ErrorKind::TypeMismatch,
            Cause::UnknownFunction => ErrorKind::UnknownFunction,
            Cause::Unsupported => ErrorKind::UnsupportedConstruct,
        }
    }

    /// The kind of failure that this reason falls under.
    #[verifier::when_used_as_spec(spec_kind)]
    pub fn kind(self) -> (r: ErrorKind)
        ensures
            r == self.spec_kind(),
    {
        match self {
            Cause::VariableNotFound => ErrorKind::UndefinedVariable,
            Cause::KeyNotFound => ErrorKind::UndefinedPath,
            Cause::LeftOperandNotNumber => ErrorKind::TypeMismatch,
            Cause::RightOperandNotNumber => ErrorKind::TypeMismatch,
            Cause::OperandsNotComparable => ErrorKind::TypeMismatch,
            Cause::KeyNotString => ErrorKind::TypeMismatch,
            Cause::PredicateNotBoolean => ErrorKind::TypeMismatch,
            Cause::NotIterable => ErrorKind::TypeMismatch,
            Cause::NotPrintable => ErrorKind::TypeMismatch,
            Cause::MissingArgument => ErrorKind::TypeMismatch,
            Cause::UnknownFunction => ErrorKind::UnknownFunction,
            Cause::Unsupported => ErrorKind::UnsupportedConstruct,
        }
    }

    /// The message that goes with this reason.
    pub open spec fn message(self) -> Seq<char> {
        match self {
            Cause::VariableNotFound => "variable not found"@,
            Cause::KeyNotFound => "key or index not found"@,
            Cause::LeftOperandNotNumber => "left operand of an arithmetic operator must be a number"@,
            Cause::RightOperandNotNumber => "right operand of an arithmetic operator must be a number"@,
            Cause::OperandsNotComparable => "operands cannot be compared"@,
            Cause::KeyNotString => "subscript key must be a string"@,
            Cause::PredicateNotBoolean => "predicate must be boolean"@,
            Cause::NotIterable => "cannot iterate over non-collection"@,
            Cause::NotPrintable => "unsupported value type in template output"@,
            Cause::MissingArgument => "function called with too few arguments"@,
            Cause::UnknownFunction => "unknown function"@,
            Cause::Unsupported => "construct not supported"@,
        }
    }
}

/// The text that a span covers in a template, and no text where the span
/// does not lie within the template.
pub open spec fn covered(template: Seq<char>, span: Span) -> Seq<char> {
    if span.start <= span.end <= template.len() {
        template.subrange(span.start as int, span.end as int)
    } else {
        Seq::empty()
    }
}

/// A failed render: why it failed, and the node at which it did.
#[derive(Clone, Copy, Debug, PartialEq, Eq, Structural)]
pub struct RendererError {
    pub cause: Cause,
    pub span: Span,
}

impl RendererError {
    pub fn new_from_span(cause: Cause, span: Span) -> (r: RendererError)
        ensures
            r == (RendererError { cause, span }),
    {
        RendererError { cause, span }
    }

    /// The kind of this failure.
    pub fn kind(&self) -> (r: ErrorKind)
        ensures
            r == self.cause.kind(),
    {
        self.cause.kind()
    }

    /// The human-readable message of this failure.
    pub fn error_msg(&self) -> (r: String)
        ensures
            r@ == self.cause.message(),
    {
        let text = match self.cause {
            Cause::VariableNotFound => "variable not found",
            Cause::KeyNotFound => "key or index not found",
            Cause::LeftOperandNotNumber => "left operand of an arithmetic operator must be a number",
            Cause::RightOperandNotNumber => "right operand of an arithmetic operator must be a number",
            Cause::OperandsNotComparable => "operands cannot be compared",
            Cause::KeyNotString => "subscript key must be a string",
            Cause::PredicateNotBoolean => "predicate must be boolean",
            Cause::NotIterable => "cannot iterate over non-collection",
            Cause::NotPrintable => "unsupported value type in template output",
            Cause::MissingArgument => "function called with too few arguments",
            Cause::UnknownFunction => "unknown function",
            Cause::Unsupported => "construct not supported",
        };
        String::from_str(text)
    }

    /// The full message of this failure in `template`: the message of its
    /// cause, the source text of the node at fault between backticks, and
    /// the line and column at which the node starts.
    pub open spec fn description(self, template: Seq<char>) -> Seq<char> {
        self.cause.message() + ": `"@ + covered(template, self.span) + "` (at "@ + decimal(
            self.span.line as int,
        ) + ":"@ + decimal(self.span.column as int) + ")"@
    }

    /// The full message of this failure in the template that was rendered:
    /// it names the node at fault by its source text, an undefined variable
    /// by its name, and says where the node stands.
    pub fn describe(&self, template: &str) -> (r: String)
        ensures
            r@ == self.description(template@),
    {
        let mut out = self.error_msg();
        out.append(": `");
        let len = template.unicode_len();
        if self.span.start <= self.span.end && self.span.end <= len {
            out.append(template.substring_char(self.span.start, self.span.end));
        } else {
            assert(out@ + Seq::<char>::empty() =~= out@);
        }
        out.append("` (at ");
        push_decimal(&mut out, self.span.line as i128);
        out.append(":");
        push_decimal(&mut out, self.span.column as i128);
        out.append(")");
        out
    }
}

} // verus!
