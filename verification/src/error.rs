//! Failures: each is a value that carries what went wrong.

use crate::types::{MalValue, Value};
use vstd::prelude::*;
use vstd::string::StringExecFns;

verus! {

/// Why reading or evaluating failed.
#[derive(Debug)]
pub enum MalError {
    /// The source text is malformed or ends too soon.
    ParseFailure(String),
    /// A dictionary was written with a key that is neither a string nor a
    /// keyword, or with a key that has no value.
    MapKeyError(String),
    /// The symbol named here is bound in no enclosing scope.
    SymbolNotFound(String),
    /// A special form or a closure got the wrong number of operands.
    ArityMismatch(String),
    /// An operation met a value of the wrong kind.
    TypeMismatch(String),
    /// The value whose printed form stands here was applied as a function.
    NotCallable(String),
    /// A number left the range of 64-bit integers, or was divided by zero.
    Arithmetic(String),
    /// Evaluation nested deeper than the limit it was given.
    DepthExceeded,
}

/// The mathematical model of a `MalError`.
pub enum Failure {
    ParseFailure(Seq<char>),
    MapKeyError(Seq<char>),
    SymbolNotFound(Seq<char>),
    ArityMismatch(Seq<char>),
    TypeMismatch(Seq<char>),
    NotCallable(Seq<char>),
    Arithmetic(Seq<char>),
    DepthExceeded,
}

impl View for MalError {
    type V = Failure;

    open spec fn view(&self) -> Failure {
        match self {
            MalError::ParseFailure(m) => Failure::ParseFailure(m@),
            MalError::MapKeyError(m) => Failure::MapKeyError(m@),
            MalError::SymbolNotFound(m) => Failure::SymbolNotFound(m@),
            MalError::ArityMismatch(m) => Failure::ArityMismatch(m@),
            MalError::TypeMismatch(m) => Failure::TypeMismatch(m@),
            MalError::NotCallable(m) => Failure::NotCallable(m@),
            MalError::Arithmetic(m) => Failure::Arithmetic(m@),
            MalError::DepthExceeded => Failure::DepthExceeded,
        }
    }
}

/// The outcome of an operation with its failure, if any, as a model.
pub open spec fn outcome<T>(r: Result<T, MalError>) -> Result<T, Failure> {
    match r {
        Ok(t) => Ok(t),
        Err(e) => Err(e@),
    }
}

/// The model of a value or a failure.
pub open spec fn result_view(r: Result<MalValue, MalError>) -> Result<Value, Failure> {
    match r {
        Ok(v) => Ok(v@),
        Err(e) => Err(e@),
    }
}

/// The line of text that reports a failure.
pub open spec fn message_spec(f: Failure) -> Seq<char> {
    match f {
        Failure::ParseFailure(m) => "Parse failure: "@ + m,
        Failure::MapKeyError(m) => "Map key error: "@ + m,
        Failure::SymbolNotFound(m) => "Symbol: '"@ + m + "' not found"@,
        Failure::ArityMismatch(m) => "Arity mismatch: "@ + m,
        Failure::TypeMismatch(m) => "Type mismatch: "@ + m,
        Failure::NotCallable(m) => "Cannot evaluate anything other than a function: "@ + m,
        Failure::Arithmetic(m) => "Arithmetic failure: "@ + m,
        Failure::DepthExceeded => "Evaluation nested too deep"@,
    }
}

impl MalError {
    /// The line of text that reports this failure.
    pub fn message(&self) -> (r: String)
        ensures
            r@ == message_spec(self@),
    {
        match self {
            MalError::ParseFailure(m) => String::from_str("Parse failure: ").concat(m.as_str()),
            MalError::MapKeyError(m) => String::from_str("Map key error: ").concat(m.as_str()),
            MalError::SymbolNotFound(m) => String::from_str("Symbol: '").concat(m.as_str()).concat(
                "' not found",
            ),
            MalError::ArityMismatch(m) => String::from_str("Arity mismatch: ").concat(m.as_str()),
            MalError::TypeMismatch(m) => String::from_str("Type mismatch: ").concat(m.as_str()),
            MalError::NotCallable(m) => String::from_str(
                "Cannot evaluate anything other than a function: ",
            ).concat(m.as_str()),
            MalError::Arithmetic(m) => String::from_str("Arithmetic failure: ").concat(m.as_str()),
            MalError::DepthExceeded => String::from_str("Evaluation nested too deep"),
        }
    }
}

impl Clone for MalError {
    fn clone(&self) -> (r: Self)
        ensures
            r == *self,
    {
        match self {
            MalError::ParseFailure(m) => MalError::ParseFailure(m.clone()),
            MalError::MapKeyError(m) => MalError::MapKeyError(m.clone()),
            MalError::SymbolNotFound(m) => MalError::SymbolNotFound(m.clone()),
            MalError::ArityMismatch(m) => MalError::ArityMismatch(m.clone()),
            MalError::TypeMismatch(m) => MalError::TypeMismatch(m.clone()),
            MalError::NotCallable(m) => MalError::NotCallable(m.clone()),
            MalError::Arithmetic(m) => MalError::Arithmetic(m.clone()),
            MalError::DepthExceeded => MalError::DepthExceeded,
        }
    }
}

impl PartialEq for MalError {
    fn eq(&self, other: &MalError) -> (r: bool) {
        match (self, other) {
            (MalError::ParseFailure(a), MalError::ParseFailure(b)) => *a == *b,
            (MalError::MapKeyError(a), MalError::MapKeyError(b)) => *a == *b,
            (MalError::SymbolNotFound(a), MalError::SymbolNotFound(b)) => *a == *b,
            (MalError::ArityMismatch(a), MalError::ArityMismatch(b)) => *a == *b,
            (MalError::TypeMismatch(a), MalError::TypeMismatch(b)) => *a == *b,
            (MalError::NotCallable(a), MalError::NotCallable(b)) => *a == *b,
            (MalError::Arithmetic(a), MalError::Arithmetic(b)) => *a == *b,
            (MalError::DepthExceeded, MalError::DepthExceeded) => true,
            _ => false,
        }
    }
}

impl vstd::std_specs::cmp::PartialEqSpecImpl for MalError {
    open spec fn obeys_eq_spec() -> bool {
        true
    }

    open spec fn eq_spec(&self, other: &MalError) -> bool {
        self@ == other@
    }
}

} // verus!
