use vstd::prelude::*;
use crate::type_::Type;

verus! {

/// A byte range into the original source text (`start` inclusive, `end` exclusive).
/// Nodes and diagnostics never own copies of the text; they point back into it.
#[derive(Clone, Copy, PartialEq, Eq, Structural, Debug)]
pub struct Span {
    pub start: usize,
    pub end: usize,
}

impl Span {
    pub open spec fn wf(self, len: nat) -> bool {
        self.start <= self.end && self.end <= len
    }
}

/// The compiler's diagnostic taxonomy.  Every variant that points at user
/// input carries the span of the offending source text; the caller that owns
/// the source renders the excerpt.
#[derive(Clone, Copy, PartialEq, Eq, Structural, Debug)]
pub enum Error {
    /// Lexical or syntactic failure; the span points at the first input
    /// position that could not be consumed.
    ParseError(Span),
    /// An identifier was read as a variable but is not bound.
    VarDoesntExist(Span),
    /// A call names a function with no collected signature.
    FuncDoesntExist(Span),
    /// A parameter's declared type name is not a known type.
    UnknownType(Span),
    /// A return type name is not a known type.
    UnknownReturnType(Span),
    /// A call passed the wrong number of arguments: expected, found, and the
    /// span of the whole argument list.
    ExpectedNumArgs(usize, usize, Span),
    /// Expected the first type, found the second, at the given span.
    TypeMismatch(Type, Type, Span),
    /// A numeric literal that does not fit a 64-bit signed integer.
    InvalidInteger(Span),
    /// A construct that produces no value (or is not lowered in this core,
    /// such as a conditional block) stands where a value is required.
    NotAllowedHere(Span),
    /// The program defines no function named `main`.
    MissingMain,
    /// A structural invariant of the syntax tree was violated; this signals a
    /// compiler defect, never a fault in user input.
    InternalCompilerError,
}

} // verus!
