//! The failures of reading, parsing and evaluating.
use vstd::prelude::*;

verus! {

/// Why reading, parsing or evaluating a form failed.
#[derive(Clone, Copy, Debug, PartialEq, Eq, Structural)]
pub enum LispError {
    /// The reader was given no text to tokenize.
    EmptyInput,
    /// A quote sigil was not followed by a form.
    DanglingQuote,
    /// The parser was given no tokens.
    NoTokens,
    /// The value in operator position is neither a symbol nor a procedure,
    /// or the thing to apply is no list.
    NotCallable,
    /// A call form or a built-in has fewer arguments than it needs.
    MissingArgument,
    /// The arguments of a built-in were not given as a list.
    ArgumentsNotList,
    /// A list operation was given a value that is no list.
    NotAList,
    /// A list operation was given the empty list.
    EmptyList,
    /// An assignment whose target is no symbol.
    NotASymbol,
    /// An assignment to the reserved name `NIL`.
    ReservedName,
    /// An arithmetic operation on a value that is no number.
    NotANumber,
    /// An integer division or remainder whose quotient does not exist.
    Division,
    /// `EVAL` was nested deeper than the caller allowed.
    DepthExceeded,
}

/// The classes of failure.
#[derive(Clone, Copy, Debug, PartialEq, Eq, Structural)]
pub enum ErrorKind {
    /// The text could not be read.
    Lex,
    /// The tokens could not be parsed.
    Parse,
    /// A reserved name was to be bound.
    ReservedName,
    /// A call has too few arguments.
    Arity,
    /// A value is not of the kind that an operation needs.
    Type,
    /// What was to be called cannot be called.
    Apply,
    /// A quotient does not exist.
    Division,
    /// The evaluation was given up.
    Depth,
}

impl LispError {
    /// The class that a failure belongs to.
    pub open spec fn class(self) -> ErrorKind {
        match self {
            LispError::EmptyInput | LispError::DanglingQuote => ErrorKind::Lex,
            LispError::NoTokens => ErrorKind::Parse,
            LispError::NotCallable => ErrorKind::Apply,
            LispError::MissingArgument => ErrorKind::Arity,
            LispError::ArgumentsNotList
            | LispError::NotAList
            | LispError::EmptyList
            | LispError::NotASymbol
            | LispError::NotANumber => ErrorKind::Type,
            LispError::ReservedName => ErrorKind::ReservedName,
            LispError::Division => ErrorKind::Division,
            LispError::DepthExceeded => ErrorKind::Depth,
        }
    }

    /// Tells which class a failure belongs to.
    pub fn kind(&self) -> (r: ErrorKind)
        ensures
            r == self.class(),
    {
        match self {
            LispError::EmptyInput | LispError::DanglingQuote => ErrorKind::Lex,
            LispError::NoTokens => ErrorKind::Parse,
            LispError::NotCallable => ErrorKind::Apply,
            LispError::MissingArgument => ErrorKind::Arity,
            LispError::ArgumentsNotList
            | LispError::NotAList
            | LispError::EmptyList
            | LispError::NotASymbol
            | LispError::NotANumber => ErrorKind::Type,
            LispError::ReservedName => ErrorKind::ReservedName,
            LispError::Division => ErrorKind::Division,
            LispError::DepthExceeded => ErrorKind::Depth,
        }
    }

    /// The text of the message, as characters.
    pub open spec fn text(self) -> Seq<char> {
        match self {
            LispError::EmptyInput => "tokenize_input: input is required to tokenize"@,
            LispError::DanglingQuote => "tokenize_input: ' must be followed by an atom or list"@,
            LispError::NoTokens => "parse: tokens are required to parse"@,
            LispError::NotCallable => "apply: first element must be a symbol or a procedure"@,
            LispError::MissingArgument => "apply: an argument is missing"@,
            LispError::ArgumentsNotList => "apply: args must be a list"@,
            LispError::NotAList => "arg must be a list"@,
            LispError::EmptyList => "list len must be >= 1"@,
            LispError::NotASymbol => "setq: first arg must be a symbol"@,
            LispError::ReservedName => "setq: NIL is not a valid symbol name"@,
            LispError::NotANumber => "arg must be an int or a float"@,
            LispError::Division => "division by zero or out of range"@,
            LispError::DepthExceeded => "eval: nested too deeply"@,
        }
    }

    /// A message for the user.
    pub fn message(&self) -> (r: String)
        ensures
            r@ == self.text(),
    {
        match self {
            LispError::EmptyInput => "tokenize_input: input is required to tokenize".to_string(),
            LispError::DanglingQuote => "tokenize_input: ' must be followed by an atom or list".to_string(),
            LispError::NoTokens => "parse: tokens are required to parse".to_string(),
            LispError::NotCallable => "apply: first element must be a symbol or a procedure".to_string(),
            LispError::MissingArgument => "apply: an argument is missing".to_string(),
            LispError::ArgumentsNotList => "apply: args must be a list".to_string(),
            LispError::NotAList => "arg must be a list".to_string(),
            LispError::EmptyList => "list len must be >= 1".to_string(),
            LispError::NotASymbol => "setq: first arg must be a symbol".to_string(),
            LispError::ReservedName => "setq: NIL is not a valid symbol name".to_string(),
            LispError::NotANumber => "arg must be an int or a float".to_string(),
            LispError::Division => "division by zero or out of range".to_string(),
            LispError::DepthExceeded => "eval: nested too deeply".to_string(),
        }
    }
}

} // verus!
