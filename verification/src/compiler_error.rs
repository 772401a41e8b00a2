//! The errors that end a parse. Each carries the number of the line it was
//! found on and, where there is one, the offending text.

use vstd::prelude::*;

verus! {

/// What can be wrong with a source file.
#[derive(Debug, PartialEq, Eq)]
pub enum CompilerError {
    /// The leading whitespace of a line is not a whole number of levels, or
    /// the line is more than one level deeper than the line before it.
    IndentError(usize),
    /// A definition line is too short or has neither `=` nor `(` after its name.
    InvalidDefinition(usize),
    /// A token is neither a literal nor a bound name, or a name is malformed.
    InvalidSymbol(usize, String),
    /// An `=` appears anywhere but directly after the assigned name.
    InvalidAssignment(usize),
    /// A token range is not a value, a parenthesised expression or an operation.
    InvalidExpression(usize),
    /// A parameter names a type that is not registered.
    UndefinedType(usize, String),
    /// A name is bound twice at one level.
    SymbolAlreadyDefined(usize, String),
    /// A parameter is not followed by the delimiter its position calls for.
    UnexpectedToken(usize, String),
    /// A parenthesis has no partner inside the expression.
    MismatchedParentheses(usize),
    /// The operands of an operator (operator, left type, right type) differ in type.
    BinaryOperatorTypeError(usize, String, String, String),
}

impl CompilerError {
    /// The number of the line the error was found on.
    pub open spec fn line_spec(self) -> usize {
        match self {
            CompilerError::IndentError(n) => n,
            CompilerError::InvalidDefinition(n) => n,
            CompilerError::InvalidSymbol(n, _) => n,
            CompilerError::InvalidAssignment(n) => n,
            CompilerError::InvalidExpression(n) => n,
            CompilerError::UndefinedType(n, _) => n,
            CompilerError::SymbolAlreadyDefined(n, _) => n,
            CompilerError::UnexpectedToken(n, _) => n,
            CompilerError::MismatchedParentheses(n) => n,
            CompilerError::BinaryOperatorTypeError(n, _, _, _) => n,
        }
    }

    /// The number of the line the error was found on.
    pub fn line(&self) -> (n: usize)
        ensures
            n == self.line_spec(),
    {
        match self {
            CompilerError::IndentError(n) => *n,
            CompilerError::InvalidDefinition(n) => *n,
            CompilerError::InvalidSymbol(n, _) => *n,
            CompilerError::InvalidAssignment(n) => *n,
            CompilerError::InvalidExpression(n) => *n,
            CompilerError::UndefinedType(n, _) => *n,
            CompilerError::SymbolAlreadyDefined(n, _) => *n,
            CompilerError::UnexpectedToken(n, _) => *n,
            CompilerError::MismatchedParentheses(n) => *n,
            CompilerError::BinaryOperatorTypeError(n, _, _, _) => *n,
        }
    }
}

} // verus!
