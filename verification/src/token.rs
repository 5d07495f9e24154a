use vstd::prelude::*;

use crate::operatortype::Operator;

verus! {

/// The kind of a lexical token.
#[derive(Debug, Clone, Copy, PartialEq, Eq, Structural)]
pub enum TokenType {
    Lparen,
    Rparen,
    Operator,
    Number,
    Identifier,
    StrLit,
    Quote,
}

/// Source position of a token: 0-based line and column (in characters).
#[derive(Debug, Clone, Copy, PartialEq, Eq, Structural)]
pub struct TokenContext {
    pub line_number: usize,
    pub column_number: usize,
}

/// Payload of a token.  A `Float` payload carries the IEEE 754 bit pattern
/// of the literal's value.
#[derive(Debug)]
pub enum TokenContent {
    Float(u64),
    Int(i64),
    Str(String),
    Operator(Operator),
}

/// One lexical token: kind, position, and optional payload.
#[derive(Debug)]
pub struct Token {
    pub token_type: TokenType,
    pub context: TokenContext,
    pub content: Option<TokenContent>,
}

impl Clone for TokenContent {
    fn clone(&self) -> (r: Self)
        ensures
            r == *self,
    {
        match self {
            TokenContent::Float(b) => TokenContent::Float(*b),
            TokenContent::Int(i) => TokenContent::Int(*i),
            TokenContent::Str(s) => TokenContent::Str(s.clone()),
            TokenContent::Operator(op) => TokenContent::Operator(*op),
        }
    }
}

impl Clone for Token {
    fn clone(&self) -> (r: Self)
        ensures
            r == *self,
    {
        Token {
            token_type: self.token_type,
            context: self.context,
            content: match &self.content {
                Some(c) => Some(c.clone()),
                None => None,
            },
        }
    }
}

impl Token {
    pub fn new(token_type: TokenType, context: TokenContext, content: Option<TokenContent>) -> (t:
        Token)
        ensures
            t.token_type == token_type,
            t.context == context,
            t.content == content,
    {
        Token { token_type, context, content }
    }
}

} // verus!
