use vstd::prelude::*;
use vstd::string::{StringExecFns, StrSliceExecFns};

use crate::token::Token;

verus! {

/// A lexical fault: position information plus a human-readable message.
/// `token_index` is the column at which the offending token started and
/// `error_index` the column at which the fault itself was noticed.
#[derive(Debug)]
pub struct TokenizingError {
    pub line_number: usize,
    pub token_index: usize,
    pub error_index: usize,
    pub message: String,
}

/// The display form of a lexical fault.
pub open spec fn spec_tokenizing_error_display(e: TokenizingError) -> Seq<char> {
    "Error on line "@ + crate::value::dec_str(e.line_number as int) + ", column "@
        + crate::value::dec_str(e.token_index as int) + ", error index: "@ + crate::value::dec_str(
        e.error_index as int,
    ) + ": "@ + e.message@
}

impl TokenizingError {
    pub fn new(line_number: usize, token_index: usize, error_index: usize, message: &str) -> (e:
        TokenizingError)
        ensures
            e.line_number == line_number,
            e.token_index == token_index,
            e.error_index == error_index,
            e.message@ == message@,
    {
        TokenizingError { line_number, token_index, error_index, message: message.to_owned() }
    }

    /// Renders the fault with its position for display.
    pub fn to_display_string(&self) -> (s: String)
        ensures
            s@ == spec_tokenizing_error_display(*self),
    {
        let s = String::from_str("Error on line ").concat(
            crate::value::usize_to_string(self.line_number).as_str(),
        ).concat(", column ").concat(
            crate::value::usize_to_string(self.token_index).as_str(),
        ).concat(", error index: ").concat(
            crate::value::usize_to_string(self.error_index).as_str(),
        ).concat(": ").concat(self.message.as_str());
        s
    }
}

/// A semantic fault found while evaluating a syntax tree.
#[derive(Debug)]
pub struct RuntimeError {
    pub message: String,
}

impl RuntimeError {
    pub fn new(msg: String) -> (e: RuntimeError)
        ensures
            e.message == msg,
    {
        RuntimeError { message: msg }
    }
}

/// A structural fault found while parsing, with the offending token if one
/// exists.
#[derive(Debug)]
pub struct ParsingError {
    pub token: Option<Token>,
    pub message: String,
}

/// The display form of a structural fault.
pub open spec fn spec_parsing_error_display(e: ParsingError) -> Seq<char> {
    "Parsing Error: "@ + e.message@
}

impl ParsingError {
    pub fn new(token: Option<Token>, message: &str) -> (e: ParsingError)
        ensures
            e.token == token,
            e.message@ == message@,
    {
        ParsingError { token, message: message.to_owned() }
    }

    /// Renders the fault for display.
    pub fn to_display_string(&self) -> (s: String)
        ensures
            s@ == spec_parsing_error_display(*self),
    {
        String::from_str("Parsing Error: ").concat(self.message.as_str())
    }
}

/// A placeholder fault kind kept for API compatibility.
#[derive(Debug)]
pub struct Error {}

/// A fault from any stage of the pipeline.
#[derive(Debug)]
pub enum EvalError {
    Tokenizing(TokenizingError),
    Parsing(ParsingError),
    Runtime(RuntimeError),
}

impl EvalError {
    /// The message carried by the underlying fault.
    pub fn message(&self) -> (m: &str)
        ensures
            m@ == self.spec_message(),
    {
        match self {
            EvalError::Tokenizing(err) => err.message.as_str(),
            EvalError::Parsing(err) => err.message.as_str(),
            EvalError::Runtime(err) => err.message.as_str(),
        }
    }

    pub open spec fn spec_message(&self) -> Seq<char> {
        match self {
            EvalError::Tokenizing(err) => err.message@,
            EvalError::Parsing(err) => err.message@,
            EvalError::Runtime(err) => err.message@,
        }
    }
}

} // verus!
