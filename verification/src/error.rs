//! Diagnostics of contract parsing and validation.
use crate::syntax::Span;
use crate::text::cat4;
use vstd::prelude::*;

verus! {

/// Result type for contract parsing.
pub type MidnightResult<T> = Result<T, MidnightError>;

/// An error encountered during contract parsing or validation.
#[derive(Debug)]
pub struct MidnightError {
    pub span: Span,
    pub code: ErrorCode,
    pub message: String,
}

/// What an error says.
pub struct ErrorV {
    pub span: Span,
    pub code: ErrorCode,
    pub message: Seq<char>,
}

impl View for MidnightError {
    type V = ErrorV;

    open spec fn view(&self) -> ErrorV {
        ErrorV { span: self.span, code: self.code, message: self.message@ }
    }
}

impl DeepView for MidnightError {
    type V = ErrorV;

    open spec fn deep_view(&self) -> ErrorV {
        self.view()
    }
}

impl MidnightError {
    /// An error at `span`.
    pub fn new(span: Span, code: ErrorCode, message: String) -> (r: Self)
        ensures
            r@ == (ErrorV { span, code, message: message@ }),
    {
        MidnightError { span, code, message }
    }

    /// The text a compile error shows: `[CODE] message`.
    pub fn to_compile_error(&self) -> (r: String)
        ensures
            r@ == "["@ + code_text(self@.code) + "] "@ + self@.message,
    {
        cat4("[", self.code.as_str(), "] ", self.message.as_str())
    }
}

/// Categorized error codes.
#[derive(Debug, Clone, Copy, PartialEq, Eq, Structural)]
pub enum ErrorCode {
    InvalidType,
    NonZkType,
    MissingLedger,
    DuplicateLedger,
    DuplicateWitnesses,
    MissingCircuit,
    InvalidConstructorReturn,
    QueryMustBeImmutable,
    EmptyContractModule,
    InvalidAttribute,
    WitnessTypeMismatch,
    UnsupportedExpression,
    UnsupportedLoop,
    UnsupportedRecursion,
}

/// The published spelling of an error code: the 0xx codes are type system
/// violations, 1xx contract structure, 2xx the privacy model and 3xx circuit
/// constraints.
pub open spec fn code_text(code: ErrorCode) -> Seq<char> {
    match code {
        ErrorCode::InvalidType => "MIDNIGHT-001"@,
        ErrorCode::NonZkType => "MIDNIGHT-002"@,
        ErrorCode::MissingLedger => "MIDNIGHT-100"@,
        ErrorCode::DuplicateLedger => "MIDNIGHT-101"@,
        ErrorCode::DuplicateWitnesses => "MIDNIGHT-102"@,
        ErrorCode::MissingCircuit => "MIDNIGHT-103"@,
        ErrorCode::InvalidConstructorReturn => "MIDNIGHT-104"@,
        ErrorCode::QueryMustBeImmutable => "MIDNIGHT-105"@,
        ErrorCode::EmptyContractModule => "MIDNIGHT-106"@,
        ErrorCode::InvalidAttribute => "MIDNIGHT-107"@,
        ErrorCode::WitnessTypeMismatch => "MIDNIGHT-200"@,
        ErrorCode::UnsupportedExpression => "MIDNIGHT-300"@,
        ErrorCode::UnsupportedLoop => "MIDNIGHT-301"@,
        ErrorCode::UnsupportedRecursion => "MIDNIGHT-302"@,
    }
}

impl ErrorCode {
    /// The published spelling of the code.
    pub fn as_str(&self) -> (r: &'static str)
        ensures
            r@ == code_text(*self),
    {
        match self {
            ErrorCode::InvalidType => "MIDNIGHT-001",
            ErrorCode::NonZkType => "MIDNIGHT-002",
            ErrorCode::MissingLedger => "MIDNIGHT-100",
            ErrorCode::DuplicateLedger => "MIDNIGHT-101",
            ErrorCode::DuplicateWitnesses => "MIDNIGHT-102",
            ErrorCode::MissingCircuit => "MIDNIGHT-103",
            ErrorCode::InvalidConstructorReturn => "MIDNIGHT-104",
            ErrorCode::QueryMustBeImmutable => "MIDNIGHT-105",
            ErrorCode::EmptyContractModule => "MIDNIGHT-106",
            ErrorCode::InvalidAttribute => "MIDNIGHT-107",
            ErrorCode::WitnessTypeMismatch => "MIDNIGHT-200",
            ErrorCode::UnsupportedExpression => "MIDNIGHT-300",
            ErrorCode::UnsupportedLoop => "MIDNIGHT-301",
            ErrorCode::UnsupportedRecursion => "MIDNIGHT-302",
        }
    }
}

/// All errors of one run, in the order they were found.
#[derive(Debug)]
pub struct Diagnostics {
    errors: Vec<MidnightError>,
}

impl View for Diagnostics {
    type V = Seq<ErrorV>;

    closed spec fn view(&self) -> Seq<ErrorV> {
        self.errors.deep_view()
    }
}

impl Diagnostics {
    /// No errors yet.
    pub fn new() -> (r: Self)
        ensures
            r@ == Seq::<ErrorV>::empty(),
    {
        let r = Diagnostics { errors: Vec::new() };
        assert(r@ =~= Seq::<ErrorV>::empty());
        r
    }

    /// Adds an error behind those already found.
    pub fn push(&mut self, error: MidnightError)
        ensures
            final(self)@ == old(self)@.push(error@),
    {
        self.errors.push(error);
        assert(self@ =~= old(self)@.push(error@));
    }

    /// Whether any error was found.
    pub fn has_errors(&self) -> (r: bool)
        ensures
            r == (self@.len() > 0),
    {
        !self.errors.is_empty()
    }

    /// The errors found, in order.
    pub fn errors(&self) -> (r: &Vec<MidnightError>)
        ensures
            r.deep_view() == self@,
    {
        &self.errors
    }

    /// One compile error text per error, in order.
    pub fn to_compile_errors(&self) -> (r: Vec<String>)
        ensures
            r@.len() == self@.len(),
            forall|i: int|
                0 <= i < self@.len() ==> (#[trigger] r@[i])@ == "["@ + code_text(self@[i].code) + "] "@
                    + self@[i].message,
    {
        let mut out: Vec<String> = Vec::new();
        let mut i: usize = 0;
        while i < self.errors.len()
            invariant
                i <= self.errors@.len(),
                out@.len() == i,
                forall|j: int|
                    0 <= j < i ==> (#[trigger] out@[j])@ == "["@ + code_text(self@[j].code) + "] "@
                        + self@[j].message,
            decreases self.errors@.len() - i,
        {
            assert(self@[i as int] == self.errors@[i as int]@);
            out.push(self.errors[i].to_compile_error());
            i += 1;
        }
        out
    }

    /// The first error.
    pub fn into_first_error(self) -> (r: MidnightError)
        requires
            self@.len() > 0,
        ensures
            r@ == self@[0],
    {
        let mut errors = self.errors;
        errors.remove(0)
    }
}

} // verus!
