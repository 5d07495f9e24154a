//! The parser: recursive descent with one token of lookahead, from the token
//! sequence to a syntax tree.
//!
//! `spec_forms` is the mathematical grammar; `parse` is the executable
//! parser, proved to build exactly the tree the grammar denotes.

use vstd::prelude::*;
use vstd::string::StringExecFns;

use crate::ast::{AstNode, AstNodeValue, SNode, SNodeValue};
use crate::errors::ParsingError;
use crate::operatortype::Operator;
use crate::token::{Token, TokenContent, TokenType};
use crate::tokenize::{tok_view, token_views, SContent, STok};
use crate::value::{SVal, Value};

verus! {

/// A structural fault: the offending token, if one exists, and a message.
pub ghost struct PFault {
    pub token: Option<STok>,
    pub msg: Seq<char>,
}

/// The model of an optional token.
pub open spec fn opt_tok_view(o: Option<Token>) -> Option<STok> {
    match o {
        Some(t) => Some(tok_view(t)),
        None => None,
    }
}

pub open spec fn msg_eof_after_lparen() -> Seq<char> {
    "Expected token after '(' found EOF"@
}

pub open spec fn msg_quote_eof() -> Seq<char> {
    "Expected token after '"@
}

pub open spec fn msg_quote_not_lparen() -> Seq<char> {
    "Expected '(' after '"@
}

pub open spec fn msg_malformed_token() -> Seq<char> {
    "Malformed token"@
}

/// Clamping of a continuation position into `[lo, hi]`.  The parses below
/// always continue at a position the sub-parse returned, which is already in
/// range; the clamp only makes that evident to the termination checker.
pub open spec fn clamp_pos(j: int, lo: int, hi: int) -> int {
    if j < lo {
        lo
    } else if j > hi {
        hi
    } else {
        j
    }
}

/// The node a literal token denotes, or a fault for a token whose payload
/// does not fit its kind.
pub open spec fn spec_literal_node(t: STok) -> Result<SNode, PFault> {
    match t.typ {
        TokenType::Number => match t.content {
            Some(SContent::Int(v)) => Ok(
                SNode { value: SNodeValue::Literal(SVal::Int(v)), children: Seq::empty() },
            ),
            Some(SContent::Float(b)) => Ok(
                SNode { value: SNodeValue::Literal(SVal::Float(b)), children: Seq::empty() },
            ),
            _ => Err(PFault { token: Some(t), msg: msg_malformed_token() }),
        },
        _ => match t.content {
            Some(SContent::Str(s)) => Ok(
                SNode { value: SNodeValue::Literal(SVal::Str(s)), children: Seq::empty() },
            ),
            _ => Err(PFault { token: Some(t), msg: msg_malformed_token() }),
        },
    }
}

/// The list of forms parsed from position `i` on: the forms gathered until
/// the closing parenthesis or the end of input, and the position after it.
///
/// The descent works as follows: a closing parenthesis ends
/// the list; an opening parenthesis starts an operator node when an operator
/// token follows, and otherwise splices the group's forms into the current
/// list; a number or string becomes a literal; an identifier takes all the
/// forms up to the enclosing closing parenthesis as its operands; a quote
/// must be followed by a parenthesized group, which it wraps; a stray
/// operator token is skipped.
pub open spec fn spec_forms(tokens: Seq<STok>, i: int) -> Result<(Seq<SNode>, int), PFault>
    decreases tokens.len() - i, 0int,
    when 0 <= i <= tokens.len()
{
    if i >= tokens.len() {
        Ok((Seq::empty(), i))
    } else {
        let t = tokens[i];
        match t.typ {
            TokenType::Rparen => Ok((Seq::empty(), i + 1)),
            TokenType::Lparen => {
                if i + 1 >= tokens.len() {
                    Err(PFault { token: None, msg: msg_eof_after_lparen() })
                } else {
                    match tokens[i + 1].content {
                        Some(SContent::Operator(op)) => {
                            match spec_forms(tokens, i + 2) {
                                Err(f) => Err(f),
                                Ok((sub, j)) => {
                                    let node = SNode {
                                        value: SNodeValue::Operator(op),
                                        children: sub,
                                    };
                                    match spec_forms(
                                        tokens,
                                        clamp_pos(j, i + 1, tokens.len() as int),
                                    ) {
                                        Err(f) => Err(f),
                                        Ok((rest, k)) => Ok((seq![node] + rest, k)),
                                    }
                                },
                            }
                        },
                        _ => {
                            match spec_forms(tokens, i + 1) {
                                Err(f) => Err(f),
                                Ok((sub, j)) => {
                                    match spec_forms(
                                        tokens,
                                        clamp_pos(j, i + 1, tokens.len() as int),
                                    ) {
                                        Err(f) => Err(f),
                                        Ok((rest, k)) => Ok((sub + rest, k)),
                                    }
                                },
                            }
                        },
                    }
                }
            },
            TokenType::Number | TokenType::StrLit => {
                match spec_literal_node(t) {
                    Err(f) => Err(f),
                    Ok(node) => match spec_forms(tokens, i + 1) {
                        Err(f) => Err(f),
                        Ok((rest, k)) => Ok((seq![node] + rest, k)),
                    },
                }
            },
            TokenType::Identifier => {
                match t.content {
                    Some(SContent::Str(name)) => {
                        match spec_forms(tokens, i + 1) {
                            Err(f) => Err(f),
                            Ok((sub, j)) => {
                                let node = SNode {
                                    value: SNodeValue::Identifier(name),
                                    children: sub,
                                };
                                match spec_forms(
                                    tokens,
                                    clamp_pos(j, i + 1, tokens.len() as int),
                                ) {
                                    Err(f) => Err(f),
                                    Ok((rest, k)) => Ok((seq![node] + rest, k)),
                                }
                            },
                        }
                    },
                    _ => Err(PFault { token: Some(t), msg: msg_malformed_token() }),
                }
            },
            TokenType::Quote => {
                if i + 1 >= tokens.len() {
                    Err(PFault { token: Some(t), msg: msg_quote_eof() })
                } else if tokens[i + 1].typ != TokenType::Lparen {
                    Err(PFault { token: Some(tokens[i + 1]), msg: msg_quote_not_lparen() })
                } else {
                    match spec_forms(tokens, i + 1) {
                        Err(f) => Err(f),
                        Ok((sub, j)) => {
                            let node = SNode { value: SNodeValue::Quote, children: sub };
                            match spec_forms(tokens, clamp_pos(j, i + 1, tokens.len() as int)) {
                                Err(f) => Err(f),
                                Ok((rest, k)) => Ok((seq![node] + rest, k)),
                            }
                        },
                    }
                }
            },
            TokenType::Operator => {
                // A stray operator token outside an application head is
                // skipped.
                spec_forms(tokens, i + 1)
            },
        }
    }
}

/// The tree the whole token sequence denotes: a root whose children are the
/// top-level forms.
pub open spec fn spec_parse(tokens: Seq<STok>) -> Result<SNode, PFault> {
    match spec_forms(tokens, 0) {
        Err(f) => Err(f),
        Ok((children, _)) => Ok(SNode { value: SNodeValue::Root, children }),
    }
}

/// The parser's cursor over the token sequence.
pub struct ParserState {
    pub tokens: Vec<Token>,
    pub next_token_idx: usize,
}

impl ParserState {
    pub fn new(tokens: Vec<Token>) -> (p: ParserState)
        ensures
            p.tokens == tokens,
            p.next_token_idx == 0,
    {
        ParserState { tokens, next_token_idx: 0 }
    }

    /// The next token, if any, without consuming it.
    pub fn peek(&self) -> (t: Option<&Token>)
        ensures
            match t {
                Some(tok) => self.next_token_idx < self.tokens@.len() && *tok == self.tokens@[
                    self.next_token_idx as int],
                None => self.next_token_idx >= self.tokens@.len(),
            },
    {
        if self.next_token_idx < self.tokens.len() {
            Some(&self.tokens[self.next_token_idx])
        } else {
            None
        }
    }

    /// The next token, if any, consuming it; the cursor never moves past
    /// the end.
    pub fn advance(&mut self) -> (t: Option<&Token>)
        requires
            old(self).next_token_idx <= old(self).tokens@.len(),
        ensures
            final(self).tokens == old(self).tokens,
            match t {
                Some(tok) => {
                    &&& old(self).next_token_idx < old(self).tokens@.len()
                    &&& *tok == old(self).tokens@[old(self).next_token_idx as int]
                    &&& final(self).next_token_idx == old(self).next_token_idx + 1
                },
                None => {
                    &&& old(self).next_token_idx == old(self).tokens@.len()
                    &&& final(self).next_token_idx == old(self).next_token_idx
                },
            },
    {
        let i = self.next_token_idx;
        if i < self.tokens.len() {
            self.next_token_idx = i + 1;
            Some(&self.tokens[i])
        } else {
            None
        }
    }

    /// Whether a token after the next one exists.
    pub fn has_next(&self) -> (r: bool)
        requires
            self.tokens@.len() > 0,
        ensures
            r == (self.next_token_idx < self.tokens@.len() - 1),
    {
        self.next_token_idx < self.tokens.len() - 1
    }
}

fn eof_after_lparen_message() -> (s: String)
    ensures
        s@ == msg_eof_after_lparen(),
{
    String::from_str("Expected token after '(' found EOF")
}

fn quote_eof_message() -> (s: String)
    ensures
        s@ == msg_quote_eof(),
{
    String::from_str("Expected token after '")
}

fn quote_not_lparen_message() -> (s: String)
    ensures
        s@ == msg_quote_not_lparen(),
{
    String::from_str("Expected '(' after '")
}

fn malformed_token_message() -> (s: String)
    ensures
        s@ == msg_malformed_token(),
{
    String::from_str("Malformed token")
}

/// The literal node of a number token; see `spec_literal_node`.
fn number(token: &Token) -> (r: Result<AstNode, ParsingError>)
    requires
        token.token_type == TokenType::Number,
    ensures
        match r {
            Ok(n) => spec_literal_node(tok_view(*token)) == Ok::<SNode, PFault>(n@),
            Err(e) => spec_literal_node(tok_view(*token)) == Err::<SNode, PFault>(
                PFault { token: opt_tok_view(e.token), msg: e.message@ },
            ),
        },
{
    match &token.content {
        Some(TokenContent::Int(v)) => {
            let n = AstNode::new(AstNodeValue::Literal(Value::Int(*v)));
            proof {
                assert(n@.children =~= Seq::<SNode>::empty());
            }
            Ok(n)
        },
        Some(TokenContent::Float(b)) => {
            let n = AstNode::new(AstNodeValue::Literal(Value::Float(*b)));
            proof {
                assert(n@.children =~= Seq::<SNode>::empty());
            }
            Ok(n)
        },
        _ => Err(ParsingError::new(Some(token.clone()), "Malformed token")),
    }
}

/// The literal node of a string token; see `spec_literal_node`.
fn string(token: &Token) -> (r: Result<AstNode, ParsingError>)
    requires
        token.token_type == TokenType::StrLit,
    ensures
        match r {
            Ok(n) => spec_literal_node(tok_view(*token)) == Ok::<SNode, PFault>(n@),
            Err(e) => spec_literal_node(tok_view(*token)) == Err::<SNode, PFault>(
                PFault { token: opt_tok_view(e.token), msg: e.message@ },
            ),
        },
{
    match &token.content {
        Some(TokenContent::Str(v)) => {
            let n = AstNode::new(AstNodeValue::Literal(Value::Str(v.clone())));
            proof {
                assert(n@.children =~= Seq::<SNode>::empty());
            }
            Ok(n)
        },
        _ => Err(ParsingError::new(Some(token.clone()), "Malformed token")),
    }
}

/// The result of parsing a list of forms with the given prefix already
/// gathered.
pub open spec fn prefix_result(pre: Seq<SNode>, r: Result<(Seq<SNode>, int), PFault>) -> Result<
    (Seq<SNode>, int),
    PFault,
> {
    match r {
        Ok((rest, k)) => Ok((pre + rest, k)),
        Err(f) => Err(f),
    }
}

/// The models of the nodes gathered so far.
pub open spec fn node_views(v: Seq<AstNode>) -> Seq<SNode> {
    v.map_values(|n: AstNode| n@)
}

/// Parses forms from the cursor's position until the closing parenthesis or
/// the end of input, consuming the closing parenthesis; see `spec_forms`.
fn _parse(parser: &mut ParserState) -> (r: Result<Vec<AstNode>, ParsingError>)
    requires
        old(parser).next_token_idx <= old(parser).tokens@.len(),
    ensures
        final(parser).tokens == old(parser).tokens,
        old(parser).next_token_idx <= final(parser).next_token_idx <= old(parser).tokens@.len(),
        match r {
            Ok(children) => spec_forms(
                token_views(old(parser).tokens@),
                old(parser).next_token_idx as int,
            ) == Ok::<(Seq<SNode>, int), PFault>(
                (node_views(children@), final(parser).next_token_idx as int),
            ),
            Err(e) => spec_forms(
                token_views(old(parser).tokens@),
                old(parser).next_token_idx as int,
            ) matches Err(f) && f.msg == e.message@ && f.token == opt_tok_view(e.token),
        },
    decreases old(parser).tokens@.len() - old(parser).next_token_idx,
{
    let ghost t = token_views(parser.tokens@);
    let ghost i0 = parser.next_token_idx as int;
    let mut children: Vec<AstNode> = Vec::new();
    proof {
        assert(node_views(children@) =~= Seq::<SNode>::empty());
        assert(node_views(children@) + Seq::<SNode>::empty() =~= node_views(children@));
    }
    while parser.next_token_idx < parser.tokens.len()
        invariant
            parser.tokens == old(parser).tokens,
            t == token_views(old(parser).tokens@),
            t.len() == parser.tokens@.len(),
            i0 == old(parser).next_token_idx,
            i0 <= parser.next_token_idx <= t.len(),
            spec_forms(t, i0) == prefix_result(
                node_views(children@),
                spec_forms(t, parser.next_token_idx as int),
            ),
        decreases t.len() - parser.next_token_idx,
    {
        let cur = parser.next_token_idx;
        let ghost curi = cur as int;
        proof {
            assert(t[curi] == tok_view(parser.tokens@[curi]));
            if cur + 1 < parser.tokens@.len() {
                assert(t[curi + 1] == tok_view(parser.tokens@[curi + 1]));
            }
        }
        let tt = parser.tokens[cur].token_type;
        match tt {
            TokenType::Rparen => {
                parser.next_token_idx = cur + 1;
                proof {
                    assert(node_views(children@) + Seq::<SNode>::empty() =~= node_views(
                        children@,
                    ));
                }
                return Ok(children);
            },
            TokenType::Lparen => {
                if cur + 1 >= parser.tokens.len() {
                    return Err(ParsingError::new(None, "Expected token after '(' found EOF"));
                }
                let head_is_op: bool = match &parser.tokens[cur + 1].content {
                    Some(TokenContent::Operator(_)) => true,
                    _ => false,
                };
                if head_is_op {
                    let op: Operator = match &parser.tokens[cur + 1].content {
                        Some(TokenContent::Operator(op)) => *op,
                        _ => {
                            return Err(ParsingError::new(None, "Malformed token"));
                        },
                    };
                    parser.next_token_idx = cur + 2;
                    let sub = match _parse(parser) {
                        Ok(s) => s,
                        Err(e) => {
                            return Err(e);
                        },
                    };
                    let node = AstNode { value: AstNodeValue::Operator(op), children: sub };
                    proof {
                        assert(node@.children =~= node_views(node.children@));
                        assert(clamp_pos(
                            parser.next_token_idx as int,
                            curi + 1,
                            t.len() as int,
                        ) == parser.next_token_idx as int);
                        let ghost before = children@;
                        assert(node_views(before.push(node)) =~= node_views(before).push(node@));
                    }
                    let ghost before = children@;
                    children.push(node);
                    proof {
                        assert(node_views(children@) =~= node_views(before).push(node@));
                        assert forall|rest: Seq<SNode>|
                            node_views(before) + (seq![node@] + rest) =~= node_views(
                                children@,
                            ) + rest by {
                            assert(node_views(children@) =~= node_views(before).push(node@));
                        }
                    }
                } else {
                    parser.next_token_idx = cur + 1;
                    let mut sub = match _parse(parser) {
                        Ok(s) => s,
                        Err(e) => {
                            return Err(e);
                        },
                    };
                    proof {
                        assert(clamp_pos(
                            parser.next_token_idx as int,
                            curi + 1,
                            t.len() as int,
                        ) == parser.next_token_idx as int);
                    }
                    let ghost before = children@;
                    let ghost subg = sub@;
                    children.append(&mut sub);
                    proof {
                        assert(node_views(children@) =~= node_views(before) + node_views(subg));
                        assert forall|rest: Seq<SNode>|
                            node_views(before) + (node_views(subg) + rest) =~= node_views(
                                children@,
                            ) + rest by {
                            assert(node_views(children@) =~= node_views(before) + node_views(
                                subg,
                            ));
                        }
                    }
                }
            },
            TokenType::Number => {
                let node = match number(&parser.tokens[cur]) {
                    Ok(n) => n,
                    Err(e) => {
                        return Err(e);
                    },
                };
                parser.next_token_idx = cur + 1;
                let ghost before = children@;
                let ghost nodeg = node@;
                children.push(node);
                proof {
                    assert(node_views(children@) =~= node_views(before).push(nodeg));
                    assert forall|rest: Seq<SNode>|
                        node_views(before) + (seq![nodeg] + rest) =~= node_views(children@)
                            + rest by {
                        assert(node_views(children@) =~= node_views(before).push(nodeg));
                    }
                }
            },
            TokenType::StrLit => {
                let node = match string(&parser.tokens[cur]) {
                    Ok(n) => n,
                    Err(e) => {
                        return Err(e);
                    },
                };
                parser.next_token_idx = cur + 1;
                let ghost before = children@;
                let ghost nodeg = node@;
                children.push(node);
                proof {
                    assert(node_views(children@) =~= node_views(before).push(nodeg));
                    assert forall|rest: Seq<SNode>|
                        node_views(before) + (seq![nodeg] + rest) =~= node_views(children@)
                            + rest by {
                        assert(node_views(children@) =~= node_views(before).push(nodeg));
                    }
                }
            },
            TokenType::Identifier => {
                let name: String = match &parser.tokens[cur].content {
                    Some(TokenContent::Str(v)) => v.clone(),
                    _ => {
                        let tok = parser.tokens[cur].clone();
                        return Err(ParsingError::new(Some(tok), "Malformed token"));
                    },
                };
                parser.next_token_idx = cur + 1;
                let sub = match _parse(parser) {
                    Ok(s) => s,
                    Err(e) => {
                        return Err(e);
                    },
                };
                let node = AstNode { value: AstNodeValue::Identifier(name), children: sub };
                proof {
                    assert(node@.children =~= node_views(node.children@));
                    assert(clamp_pos(parser.next_token_idx as int, curi + 1, t.len() as int)
                        == parser.next_token_idx as int);
                }
                let ghost before = children@;
                let ghost nodeg = node@;
                children.push(node);
                proof {
                    assert(node_views(children@) =~= node_views(before).push(nodeg));
                    assert forall|rest: Seq<SNode>|
                        node_views(before) + (seq![nodeg] + rest) =~= node_views(children@)
                            + rest by {
                        assert(node_views(children@) =~= node_views(before).push(nodeg));
                    }
                }
            },
            TokenType::Quote => {
                if cur + 1 >= parser.tokens.len() {
                    let tok = parser.tokens[cur].clone();
                    return Err(ParsingError::new(Some(tok), "Expected token after '"));
                }
                let next_is_lparen = match parser.tokens[cur + 1].token_type {
                    TokenType::Lparen => true,
                    _ => false,
                };
                if !next_is_lparen {
                    let tok = parser.tokens[cur + 1].clone();
                    return Err(ParsingError::new(Some(tok), "Expected '(' after '"));
                }
                parser.next_token_idx = cur + 1;
                let sub = match _parse(parser) {
                    Ok(s) => s,
                    Err(e) => {
                        return Err(e);
                    },
                };
                let node = AstNode { value: AstNodeValue::Quote, children: sub };
                proof {
                    assert(node@.children =~= node_views(node.children@));
                    assert(clamp_pos(parser.next_token_idx as int, curi + 1, t.len() as int)
                        == parser.next_token_idx as int);
                }
                let ghost before = children@;
                let ghost nodeg = node@;
                children.push(node);
                proof {
                    assert(node_views(children@) =~= node_views(before).push(nodeg));
                    assert forall|rest: Seq<SNode>|
                        node_views(before) + (seq![nodeg] + rest) =~= node_views(children@)
                            + rest by {
                        assert(node_views(children@) =~= node_views(before).push(nodeg));
                    }
                }
            },
            TokenType::Operator => {
                parser.next_token_idx = cur + 1;
            },
        }
    }
    proof {
        assert(node_views(children@) + Seq::<SNode>::empty() =~= node_views(children@));
    }
    Ok(children)
}

/// Parses the whole token sequence into a root node whose children are the
/// top-level forms; see `spec_parse`.
pub fn parse(tokens: Vec<Token>) -> (r: Result<AstNode, ParsingError>)
    ensures
        match r {
            Ok(root) => spec_parse(token_views(tokens@)) == Ok::<SNode, PFault>(root@),
            Err(e) => spec_parse(token_views(tokens@)) matches Err(f) && f.msg == e.message@
                && f.token == opt_tok_view(e.token),
        },
{
    let mut parser = ParserState::new(tokens);
    let children = match _parse(&mut parser) {
        Ok(c) => c,
        Err(e) => {
            return Err(e);
        },
    };
    let root = AstNode { value: AstNodeValue::Root, children };
    proof {
        assert(root@.children =~= node_views(root.children@));
    }
    Ok(root)
}

} // verus!
