//! The ways in which reading or evaluating an expression fails.

use vstd::prelude::*;
use vstd::string::StringExecFns;

verus! {

/// Why an expression could not be read or evaluated.
#[derive(Debug, PartialEq, Eq)]
pub enum EvalError {
    /// The parentheses of the source text do not balance.
    SyntaxError,
    /// An empty list stands where a call is expected.
    EmptyExpression,
    /// The first item of a list does not name a function.
    NotAFunctionName,
    /// A symbol has no binding.
    UnboundSymbol(String),
    /// A name is neither a keyword nor bound.
    UnrecognizedFunction(String),
    /// A name is bound to a value that is no lambda.
    SymbolCannotBeUsedAsFunction,
    /// A primitive or a lambda got the wrong number of arguments.
    ArityMismatch,
    /// An operand is of the wrong kind for the operation.
    TypeError,
    /// A parameter of a lambda is not a symbol.
    InvalidParameterName,
    /// `car` was applied to a list without items.
    EmptyList,
    /// `car` or `cdr` was applied to an atom.
    NotAList,
    /// A division or a remainder by zero.
    DivisionByZero,
    /// The scale of an operand lies beyond the limit on which arithmetic is
    /// done.
    NumberOutOfRange,
    /// Evaluation nested deeper than the environment allows.
    DepthExceeded,
    /// A file was asked for whose text the environment does not hold.
    FileUnavailable(String),
}

/// The mathematical model of an [`EvalError`].
pub ghost enum Failure {
    SyntaxError,
    EmptyExpression,
    NotAFunctionName,
    UnboundSymbol(Seq<char>),
    UnrecognizedFunction(Seq<char>),
    SymbolCannotBeUsedAsFunction,
    ArityMismatch,
    TypeError,
    InvalidParameterName,
    EmptyList,
    NotAList,
    DivisionByZero,
    NumberOutOfRange,
    DepthExceeded,
    FileUnavailable(Seq<char>),
}

impl View for EvalError {
    type V = Failure;

    open spec fn view(&self) -> Failure {
        match *self {
            EvalError::SyntaxError => Failure::SyntaxError,
            EvalError::EmptyExpression => Failure::EmptyExpression,
            EvalError::NotAFunctionName => Failure::NotAFunctionName,
            EvalError::UnboundSymbol(name) => Failure::UnboundSymbol(name@),
            EvalError::UnrecognizedFunction(name) => Failure::UnrecognizedFunction(name@),
            EvalError::SymbolCannotBeUsedAsFunction => Failure::SymbolCannotBeUsedAsFunction,
            EvalError::ArityMismatch => Failure::ArityMismatch,
            EvalError::TypeError => Failure::TypeError,
            EvalError::InvalidParameterName => Failure::InvalidParameterName,
            EvalError::EmptyList => Failure::EmptyList,
            EvalError::NotAList => Failure::NotAList,
            EvalError::DivisionByZero => Failure::DivisionByZero,
            EvalError::NumberOutOfRange => Failure::NumberOutOfRange,
            EvalError::DepthExceeded => Failure::DepthExceeded,
            EvalError::FileUnavailable(path) => Failure::FileUnavailable(path@),
        }
    }
}

impl Clone for EvalError {
    fn clone(&self) -> (r: EvalError)
        ensures
            r@ == self@,
    {
        match self {
            EvalError::SyntaxError => EvalError::SyntaxError,
            EvalError::EmptyExpression => EvalError::EmptyExpression,
            EvalError::NotAFunctionName => EvalError::NotAFunctionName,
            EvalError::UnboundSymbol(name) => EvalError::UnboundSymbol(name.clone()),
            EvalError::UnrecognizedFunction(name) => EvalError::UnrecognizedFunction(name.clone()),
            EvalError::SymbolCannotBeUsedAsFunction => EvalError::SymbolCannotBeUsedAsFunction,
            EvalError::ArityMismatch => EvalError::ArityMismatch,
            EvalError::TypeError => EvalError::TypeError,
            EvalError::InvalidParameterName => EvalError::InvalidParameterName,
            EvalError::EmptyList => EvalError::EmptyList,
            EvalError::NotAList => EvalError::NotAList,
            EvalError::DivisionByZero => EvalError::DivisionByZero,
            EvalError::NumberOutOfRange => EvalError::NumberOutOfRange,
            EvalError::DepthExceeded => EvalError::DepthExceeded,
            EvalError::FileUnavailable(path) => EvalError::FileUnavailable(path.clone()),
        }
    }
}

/// The sentence that tells a user of a failure.
pub open spec fn sentence(failure: Failure) -> Seq<char> {
    match failure {
        Failure::SyntaxError => "Missing closing or opening parenthesis."@,
        Failure::EmptyExpression => "Empty list is not a valid token."@,
        Failure::NotAFunctionName => "First token in list must be function name."@,
        Failure::UnboundSymbol(name) => "Symbol of name '"@ + name + "' is undefined."@,
        Failure::UnrecognizedFunction(name) => "Function name '"@ + name + "' not recognized."@,
        Failure::SymbolCannotBeUsedAsFunction => "Symbol cannot be used as function."@,
        Failure::ArityMismatch => "Incorrect argument count."@,
        Failure::TypeError => "Cannot perform operation on a value of this type."@,
        Failure::InvalidParameterName => "Parameter name must be valid symbol."@,
        Failure::EmptyList => "'car' cannot be applied to empty lists."@,
        Failure::NotAList => "Operator can only be applied to lists."@,
        Failure::DivisionByZero => "Division by zero."@,
        Failure::NumberOutOfRange => "Number out of range."@,
        Failure::DepthExceeded => "Evaluation nested too deeply."@,
        Failure::FileUnavailable(path) => "Could not read file '"@ + path + "'."@,
    }
}

impl EvalError {
    /// A sentence that tells a user what went wrong.
    pub fn message(&self) -> (r: String)
        ensures
            r@ == sentence(self@),
    {
        match self {
            EvalError::SyntaxError => String::from_str("Missing closing or opening parenthesis."),
            EvalError::EmptyExpression => String::from_str("Empty list is not a valid token."),
            EvalError::NotAFunctionName => String::from_str(
                "First token in list must be function name.",
            ),
            EvalError::UnboundSymbol(name) => {
                let start = String::from_str("Symbol of name '");
                start.concat(name.as_str()).concat("' is undefined.")
            },
            EvalError::UnrecognizedFunction(name) => {
                let start = String::from_str("Function name '");
                start.concat(name.as_str()).concat("' not recognized.")
            },
            EvalError::SymbolCannotBeUsedAsFunction => String::from_str(
                "Symbol cannot be used as function.",
            ),
            EvalError::ArityMismatch => String::from_str("Incorrect argument count."),
            EvalError::TypeError => String::from_str(
                "Cannot perform operation on a value of this type.",
            ),
            EvalError::InvalidParameterName => String::from_str(
                "Parameter name must be valid symbol.",
            ),
            EvalError::EmptyList => String::from_str("'car' cannot be applied to empty lists."),
            EvalError::NotAList => String::from_str("Operator can only be applied to lists."),
            EvalError::DivisionByZero => String::from_str("Division by zero."),
            EvalError::NumberOutOfRange => String::from_str("Number out of range."),
            EvalError::DepthExceeded => String::from_str("Evaluation nested too deeply."),
            EvalError::FileUnavailable(path) => {
                let start = String::from_str("Could not read file '");
                start.concat(path.as_str()).concat("'.")
            },
        }
    }
}

} // verus!
