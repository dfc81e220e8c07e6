//! The error taxonomy: every fallible operation of the core returns one
//! of these; nothing in the core aborts on a data-dependent condition.

use vstd::prelude::*;

verus! {

/// Coercion and value-model failures.
#[derive(Debug, Clone, PartialEq, Eq)]
pub enum ValueError {
    /// A literal could not be parsed into the requested type.
    FailedToParseLiteral(String),
    /// A literal kind that the requested type cannot be built from.
    UnsupportedLiteral(String),
    /// Operand types that no rule of the operator covers.
    TypeMismatch(String),
    /// An exact result that does not fit its type.
    Overflow(String),
    /// A literal that parsed but does not fit the requested type.
    ValueOutOfRange(String),
    /// A divisor of zero.
    DivisorShouldNotBeZero,
    /// A number's canonical text that the JSON number grammar refused;
    /// upstream invariants make this unreachable, and a violated
    /// invariant is reported rather than crashed on.
    UnreachableJsonNumberParseFailure(String),
}

/// Evaluation failures.
#[derive(Debug, Clone, PartialEq, Eq)]
pub enum EvaluateError {
    /// A boolean was required (`CASE`, `AND`/`OR`, `NOT`) and something
    /// else arrived.
    BooleanTypeRequired(String),
    /// An identifier that the row's columns do not contain.
    ValueNotFound(String),
}

/// Validation failures.
#[derive(Debug, Clone, PartialEq, Eq)]
pub enum SelectError {
    /// A projected column name defined by more than one joined table.
    ColumnReferenceAmbiguous(String),
}

/// Statement-translation failures.
#[derive(Debug, Clone, PartialEq, Eq)]
pub enum TranslateError {
    /// A parsed statement kind the core does not support.
    UnsupportedQuery,
    /// A select statement without any table.
    StatementHasNoTable,
}

/// The one error type every fallible operation of the core returns.
#[derive(Debug, Clone, PartialEq, Eq)]
pub enum Error {
    Value(ValueError),
    Evaluate(EvaluateError),
    Select(SelectError),
    Fetch(crate::fetch::FetchError),
    Translate(TranslateError),
}

} // verus!
