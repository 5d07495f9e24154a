//! The lexer: one line of source text at a time, producing tokens or the
//! first lexical fault.
//!
//! `spec_lex_line` is the mathematical scanner; `tokenize_line` and
//! `tokenize` are the executable lexer, proved to produce exactly the tokens
//! the scanner denotes.  Classification is by ASCII: digits are `0`-`9`,
//! letters `a`-`z` and `A`-`Z`, whitespace the six ASCII blanks.

use vstd::prelude::*;
use vstd::string::{StrSliceExecFns, StringExecFns};

use crate::errors::TokenizingError;
use crate::numeric::{fp_mul, fp_of_decimal, fp_of_int};
use crate::operatortype::Operator;
use crate::token::{Token, TokenContent, TokenContext, TokenType};
use crate::value::{is_digit_char, spec_parse_int, spec_valid_digit, NumBase};

verus! {

/// The model of a token: kind, position, and payload with the string
/// abstracted to its characters.
pub ghost struct STok {
    pub typ: TokenType,
    pub line: int,
    pub col: int,
    pub content: Option<SContent>,
}

pub ghost enum SContent {
    Float(u64),
    Int(i64),
    Str(Seq<char>),
    Operator(Operator),
}

/// The model of an executable token.
pub open spec fn tok_view(t: Token) -> STok {
    STok {
        typ: t.token_type,
        line: t.context.line_number as int,
        col: t.context.column_number as int,
        content: match t.content {
            None => None,
            Some(TokenContent::Float(b)) => Some(SContent::Float(b)),
            Some(TokenContent::Int(v)) => Some(SContent::Int(v)),
            Some(TokenContent::Str(s)) => Some(SContent::Str(s@)),
            Some(TokenContent::Operator(op)) => Some(SContent::Operator(op)),
        },
    }
}

pub open spec fn token_views(v: Seq<Token>) -> Seq<STok> {
    v.map_values(|t: Token| tok_view(t))
}

/// A lexical fault: position fields as the errors carry them, and the
/// message.
pub ghost struct LFault {
    pub line: int,
    pub token_index: int,
    pub error_index: int,
    pub msg: Seq<char>,
}

pub open spec fn msg_multiple_dots() -> Seq<char> {
    "Invalid number: multiple decimal points found"@
}

pub open spec fn msg_float_base() -> Seq<char> {
    "Floats are only supported for decimal numbers"@
}

pub open spec fn msg_unclosed_string() -> Seq<char> {
    "Unclosed String"@
}

pub open spec fn msg_invalid_number() -> Seq<char> {
    "Invalid number"@
}

pub open spec fn msg_unrecognized(c: char) -> Seq<char> {
    "Unrecognized Token '"@ + seq![c] + "'"@
}

pub open spec fn is_space_char(c: char) -> bool {
    c == ' ' || c == '\t' || c == '\n' || c == '\r' || c == '\u{b}' || c == '\u{c}'
}

pub open spec fn is_alpha_char(c: char) -> bool {
    ('a' <= c <= 'z') || ('A' <= c <= 'Z')
}

pub open spec fn is_ident_char(c: char) -> bool {
    is_alpha_char(c) || is_digit_char(c) || c == '-'
}

/// The end of an identifier that starts before position `i`: the first
/// position from `i` on that does not continue the identifier.
pub open spec fn ident_end(s: Seq<char>, i: int) -> int
    decreases s.len() - i,
    when 0 <= i <= s.len()
{
    if i >= s.len() || !is_ident_char(s[i]) {
        i
    } else {
        ident_end(s, i + 1)
    }
}

/// The position of the closing quote from `i` on, or the length if the
/// string is not closed on this line.
pub open spec fn quote_end(s: Seq<char>, i: int) -> int
    decreases s.len() - i,
    when 0 <= i <= s.len()
{
    if i >= s.len() {
        i
    } else if s[i] == '"' {
        i
    } else {
        quote_end(s, i + 1)
    }
}

/// The scan of a numeric literal's digits from position `i`: the position
/// after the literal and whether a decimal dot was consumed, or the position
/// and message of the fault (a second dot, or a dot in a non-decimal base).
pub open spec fn scan_num(s: Seq<char>, i: int, base: NumBase, seen_dot: bool) -> Result<
    (int, bool),
    (int, Seq<char>),
>
    decreases s.len() - i,
    when 0 <= i <= s.len()
{
    if i >= s.len() {
        Ok((i, seen_dot))
    } else if !spec_valid_digit(base, s[i]) && s[i] != '.' {
        Ok((i, seen_dot))
    } else if s[i] == '.' {
        if seen_dot {
            Err((i, msg_multiple_dots()))
        } else if base != NumBase::Dec {
            Err((i, msg_float_base()))
        } else {
            scan_num(s, i + 1, base, true)
        }
    } else {
        scan_num(s, i + 1, base, seen_dot)
    }
}

/// The base a literal announces: a leading `0` followed by `x`, `o` or `b`.
pub open spec fn base_at(s: Seq<char>, dstart: int) -> NumBase {
    if dstart + 1 < s.len() && s[dstart] == '0' {
        if s[dstart + 1] == 'x' {
            NumBase::Hex
        } else if s[dstart + 1] == 'b' {
            NumBase::Bin
        } else if s[dstart + 1] == 'o' {
            NumBase::Oct
        } else {
            NumBase::Dec
        }
    } else {
        NumBase::Dec
    }
}

/// The numeric token starting at `start` on line `line` (at `start` stands
/// either a digit or a minus sign directly followed by a digit), and the
/// position after it.
pub open spec fn spec_number_token(s: Seq<char>, line: int, start: int) -> Result<
    (STok, int),
    LFault,
> {
    let sign: int = if s[start] == '-' {
        -1
    } else {
        1
    };
    let dstart: int = if s[start] == '-' {
        start + 1
    } else {
        start
    };
    let base = base_at(s, dstart);
    let p0: int = if base == NumBase::Dec {
        dstart + 1
    } else {
        dstart + 2
    };
    match scan_num(s, p0, base, false) {
        Err((ei, msg)) => Err(LFault { line, token_index: start, error_index: ei, msg }),
        Ok((end, is_float)) => {
            let digits = s.subrange(dstart, end);
            if is_float {
                let bits = fp_mul(fp_of_int(sign as i64), fp_of_decimal(digits));
                Ok(
                    (
                        STok {
                            typ: TokenType::Number,
                            line,
                            col: start,
                            content: Some(SContent::Float(bits)),
                        },
                        end,
                    ),
                )
            } else {
                match spec_parse_int(base, digits) {
                    Ok(v) => Ok(
                        (
                            STok {
                                typ: TokenType::Number,
                                line,
                                col: start,
                                content: Some(SContent::Int((sign * v) as i64)),
                            },
                            end,
                        ),
                    ),
                    Err(_) => Err(
                        LFault {
                            line,
                            token_index: start,
                            error_index: start,
                            msg: msg_invalid_number(),
                        },
                    ),
                }
            }
        },
    }
}

/// A token with no payload.
pub open spec fn bare_tok(typ: TokenType, line: int, col: int) -> STok {
    STok { typ, line, col, content: None }
}

/// An operator token.
pub open spec fn op_tok(op: Operator, line: int, col: int) -> STok {
    STok {
        typ: TokenType::Operator,
        line,
        col,
        content: Some(SContent::Operator(op)),
    }
}

/// The tokens of line `s` (line number `line`) from position `i` on, or the
/// first lexical fault together with the tokens completed strictly before
/// the fault point.
pub open spec fn spec_lex_line(s: Seq<char>, line: int, i: int) -> Result<
    Seq<STok>,
    (Seq<STok>, LFault),
>
    decreases s.len() - i, 0int,
    when 0 <= i <= s.len()
{
    if i >= s.len() {
        Ok(Seq::empty())
    } else {
        let c = s[i];
        if is_space_char(c) {
            spec_lex_line(s, line, i + 1)
        } else if is_digit_char(c) {
            match spec_number_token(s, line, i) {
                Err(f) => Err((Seq::empty(), f)),
                Ok((tok, end)) => spec_lex_cons(s, line, tok, clamp_idx(end, i + 1, s.len() as int)),
            }
        } else if c == '(' {
            spec_lex_cons(s, line, bare_tok(TokenType::Lparen, line, i), i + 1)
        } else if c == ')' {
            spec_lex_cons(s, line, bare_tok(TokenType::Rparen, line, i), i + 1)
        } else if c == '+' {
            spec_lex_cons(s, line, op_tok(Operator::Plus, line, i), i + 1)
        } else if c == '-' {
            if i + 1 < s.len() && is_digit_char(s[i + 1]) {
                match spec_number_token(s, line, i) {
                    Err(f) => Err((Seq::empty(), f)),
                    Ok((tok, end)) => spec_lex_cons(
                        s,
                        line,
                        tok,
                        clamp_idx(end, i + 1, s.len() as int),
                    ),
                }
            } else {
                spec_lex_cons(s, line, op_tok(Operator::Minus, line, i), i + 1)
            }
        } else if c == '*' {
            spec_lex_cons(s, line, op_tok(Operator::Mul, line, i), i + 1)
        } else if c == '%' {
            spec_lex_cons(s, line, op_tok(Operator::Modulo, line, i), i + 1)
        } else if c == '^' {
            spec_lex_cons(s, line, op_tok(Operator::Power, line, i), i + 1)
        } else if c == '>' {
            if i + 1 < s.len() && s[i + 1] == '=' {
                spec_lex_cons(s, line, op_tok(Operator::Geq, line, i), i + 2)
            } else {
                spec_lex_cons(s, line, op_tok(Operator::Gt, line, i), i + 1)
            }
        } else if c == '<' {
            if i + 1 < s.len() && s[i + 1] == '=' {
                spec_lex_cons(s, line, op_tok(Operator::Leq, line, i), i + 2)
            } else {
                spec_lex_cons(s, line, op_tok(Operator::Lt, line, i), i + 1)
            }
        } else if c == '=' {
            spec_lex_cons(s, line, op_tok(Operator::Eq, line, i), i + 1)
        } else if c == '!' {
            if i + 1 < s.len() && s[i + 1] == '=' {
                spec_lex_cons(s, line, op_tok(Operator::Neq, line, i), i + 2)
            } else {
                Err(
                    (
                        Seq::empty(),
                        LFault { line, token_index: i, error_index: i, msg: msg_unrecognized('!') },
                    ),
                )
            }
        } else if c == '/' {
            if i + 1 < s.len() && s[i + 1] == '/' {
                spec_lex_cons(s, line, op_tok(Operator::IntDiv, line, i), i + 2)
            } else {
                spec_lex_cons(s, line, op_tok(Operator::Div, line, i), i + 1)
            }
        } else if c == '"' {
            let j = quote_end(s, i + 1);
            if j >= s.len() {
                let ei: int = if i + 1 < s.len() {
                    s.len() - 1
                } else {
                    0
                };
                Err(
                    (
                        Seq::empty(),
                        LFault { line, token_index: i, error_index: ei, msg: msg_unclosed_string() },
                    ),
                )
            } else {
                let tok = STok {
                    typ: TokenType::StrLit,
                    line,
                    col: i,
                    content: Some(SContent::Str(s.subrange(i + 1, j))),
                };
                spec_lex_cons(s, line, tok, clamp_idx(j + 1, i + 1, s.len() as int))
            }
        } else if c == '\'' {
            spec_lex_cons(s, line, bare_tok(TokenType::Quote, line, i), i + 1)
        } else if is_alpha_char(c) {
            let j = ident_end(s, i + 1);
            let tok = STok {
                typ: TokenType::Identifier,
                line,
                col: i,
                content: Some(SContent::Str(s.subrange(i, j))),
            };
            spec_lex_cons(s, line, tok, clamp_idx(j, i + 1, s.len() as int))
        } else {
            Err(
                (
                    Seq::empty(),
                    LFault { line, token_index: i, error_index: i, msg: msg_unrecognized(c) },
                ),
            )
        }
    }
}

/// Clamping of a continuation position into `[lo, hi]`; the scans above
/// always continue within range, the clamp only makes that evident to the
/// termination checker.
pub open spec fn clamp_idx(j: int, lo: int, hi: int) -> int {
    if j < lo {
        lo
    } else if j > hi {
        hi
    } else {
        j
    }
}

/// One token followed by the rest of the line; a fault further on keeps
/// this token among the completed ones.
pub open spec fn spec_lex_cons(s: Seq<char>, line: int, tok: STok, next: int) -> Result<
    Seq<STok>,
    (Seq<STok>, LFault),
>
    decreases s.len() - next, 1int,
    when 0 <= next <= s.len()
{
    match spec_lex_line(s, line, next) {
        Err((partial, f)) => Err((seq![tok] + partial, f)),
        Ok(rest) => Ok(seq![tok] + rest),
    }
}

/// What a successful digit scan guarantees about the characters it
/// consumed: all of them are digits of the base or a dot, a dot was seen
/// exactly when the flag says so, and no second dot occurs.
proof fn lemma_scan_num_chars(s: Seq<char>, p: int, base: NumBase, dot: bool)
    requires
        0 <= p <= s.len(),
        scan_num(s, p, base, dot) is Ok,
    ensures
        p <= scan_num(s, p, base, dot)->Ok_0.0 <= s.len(),
        forall|j: int|
            p <= j < scan_num(s, p, base, dot)->Ok_0.0 ==> (spec_valid_digit(base, #[trigger] s[j])
                || s[j] == '.'),
        scan_num(s, p, base, dot)->Ok_0.1 == (dot || exists|j: int|
            p <= j < scan_num(s, p, base, dot)->Ok_0.0 && #[trigger] s[j] == '.'),
        dot ==> forall|j: int| p <= j < scan_num(s, p, base, dot)->Ok_0.0 ==> #[trigger] s[j]
            != '.',
        !dot ==> forall|j1: int, j2: int|
            p <= j1 < j2 < scan_num(s, p, base, dot)->Ok_0.0 && #[trigger] s[j1] == '.'
                ==> #[trigger] s[j2] != '.',
    decreases s.len() - p,
{
    if p >= s.len() {
    } else if !spec_valid_digit(base, s[p]) && s[p] != '.' {
    } else if s[p] == '.' {
        lemma_scan_num_chars(s, p + 1, base, true);
        let end = scan_num(s, p, base, dot)->Ok_0.0;
        assert(s[p] == '.');
        assert(exists|j: int| p <= j < end && #[trigger] s[j] == '.');
    } else {
        lemma_scan_num_chars(s, p + 1, base, dot);
    }
}

/// The result of lexing with the tokens `pre` already produced.
pub open spec fn lex_prefixed(pre: Seq<STok>, r: Result<Seq<STok>, (Seq<STok>, LFault)>) -> Result<
    Seq<STok>,
    (Seq<STok>, LFault),
> {
    match r {
        Ok(rest) => Ok(pre + rest),
        Err((partial, f)) => Err((pre + partial, f)),
    }
}

/// The position of the first newline from `i` on, or the length.
pub open spec fn nl_pos(s: Seq<char>, i: int) -> int
    decreases s.len() - i,
    when 0 <= i <= s.len()
{
    if i >= s.len() {
        i
    } else if s[i] == '\n' {
        i
    } else {
        nl_pos(s, i + 1)
    }
}

/// One trailing carriage return is dropped from a line, as `str::lines`
/// drops it.
pub open spec fn strip_cr(line: Seq<char>) -> Seq<char> {
    if line.len() > 0 && line.last() == '\r' {
        line.drop_last()
    } else {
        line
    }
}

/// The tokens of the whole input from line number `lineno` on: the input is
/// cut at newlines, each line is lexed in turn, and the first fault wins.
pub open spec fn spec_tokenize_from(s: Seq<char>, lineno: int) -> Result<Seq<STok>, LFault>
    decreases s.len(),
{
    if s.len() == 0 {
        Ok(Seq::empty())
    } else {
        let j = clamp_idx(nl_pos(s, 0), 0, s.len() as int);
        let line = strip_cr(s.take(j));
        match spec_lex_line(line, lineno, 0) {
            Err((_, f)) => Err(f),
            Ok(ts) => {
                let rest_input: Seq<char> = if j >= s.len() {
                    Seq::empty()
                } else {
                    s.skip(j + 1)
                };
                match spec_tokenize_from(rest_input, lineno + 1) {
                    Err(f) => Err(f),
                    Ok(rest) => Ok(ts + rest),
                }
            },
        }
    }
}

/// The tokens of the whole input, lines numbered from zero.
pub open spec fn spec_tokenize(s: Seq<char>) -> Result<Seq<STok>, LFault> {
    spec_tokenize_from(s, 0)
}

/// The result of lexing the whole input with the tokens `pre` already
/// produced from earlier lines.
pub open spec fn input_prefixed(pre: Seq<STok>, r: Result<Seq<STok>, LFault>) -> Result<
    Seq<STok>,
    LFault,
> {
    match r {
        Ok(rest) => Ok(pre + rest),
        Err(f) => Err(f),
    }
}

/// Pushing a token pushes its model.
proof fn lemma_views_push(before: Seq<Token>, t: Token)
    ensures
        token_views(before.push(t)) == token_views(before).push(tok_view(t)),
{
    assert(token_views(before.push(t)) =~= token_views(before).push(tok_view(t)));
}

/// Gathering one more token and lexing on is the same as lexing from the
/// token's position.
proof fn lemma_cons_assoc(s: Seq<char>, line: int, pre: Seq<STok>, st: STok, j: int)
    requires
        0 <= j <= s.len(),
    ensures
        lex_prefixed(pre, spec_lex_cons(s, line, st, j)) == lex_prefixed(
            pre.push(st),
            spec_lex_line(s, line, j),
        ),
{
    match spec_lex_line(s, line, j) {
        Ok(rest) => {
            assert(pre + (seq![st] + rest) =~= pre.push(st) + rest);
        },
        Err((partial, _)) => {
            assert(pre + (seq![st] + partial) =~= pre.push(st) + partial);
        },
    }
}

/// Stripping base prefixes leaves a trailing suffix of the sequence.
proof fn lemma_strip_suffix(s: Seq<char>, p: char)
    ensures
        crate::value::strip_base_prefix(s, p).len() <= s.len(),
        crate::value::strip_base_prefix(s, p) == s.skip(
            s.len() - crate::value::strip_base_prefix(s, p).len(),
        ),
    decreases s.len(),
{
    let r = crate::value::strip_base_prefix(s, p);
    if s.len() >= 2 && s[0] == '0' && s[1] == p {
        lemma_strip_suffix(s.skip(2), p);
        assert(s.skip(2).skip(s.skip(2).len() - r.len()) =~= s.skip(s.len() - r.len()));
    } else {
        assert(s.skip(0) =~= s);
    }
}

/// The numeric token at `start`; see `spec_number_token`.
#[verifier::rlimit(80)]
fn parse_number(input_str: &str, line_num: usize, start: usize) -> (r: Result<
    (Token, usize),
    TokenizingError,
>)
    requires
        start < input_str@.len(),
        is_digit_char(input_str@[start as int]) || (input_str@[start as int] == '-' && start + 1
            < input_str@.len() && is_digit_char(input_str@[start as int + 1])),
    ensures
        match r {
            Ok((tok, end)) => spec_number_token(input_str@, line_num as int, start as int) == Ok::<
                (STok, int),
                LFault,
            >((tok_view(tok), end as int)) && start < end <= input_str@.len(),
            Err(e) => {
                &&& spec_number_token(input_str@, line_num as int, start as int) is Err
                &&& lex_fault_matches(
                    e,
                    spec_number_token(input_str@, line_num as int, start as int)->Err_0,
                )
                &&& e.line_number == line_num
            },
        },
{
    let ghost s = input_str@;
    let n = input_str.unicode_len();
    let first = input_str.get_char(start);
    let neg: bool = first == '-';
    let dstart: usize = if neg {
        start + 1
    } else {
        start
    };
    let ghost signg: int = if neg {
        -1int
    } else {
        1int
    };
    // Base prefix detection.
    let base: NumBase = if dstart + 1 < n && input_str.get_char(dstart) == '0' {
        let nc = input_str.get_char(dstart + 1);
        if nc == 'x' {
            NumBase::Hex
        } else if nc == 'b' {
            NumBase::Bin
        } else if nc == 'o' {
            NumBase::Oct
        } else {
            NumBase::Dec
        }
    } else {
        NumBase::Dec
    };
    proof {
        assert(base == base_at(s, dstart as int));
    }
    let p0: usize = if base == NumBase::Dec {
        dstart + 1
    } else {
        dstart + 2
    };
    proof {
        assert(p0 <= n);
    }
    // Scan the digits, tracking the decimal dot.
    let mut j: usize = p0;
    let mut seen_dot: bool = false;
    while j < n
        invariant
            p0 <= j <= n,
            n == s.len(),
            s == input_str@,
            start < s.len(),
            neg == (s[start as int] == '-'),
            dstart == if s[start as int] == '-' {
                start + 1
            } else {
                start as int
            },
            is_digit_char(s[dstart as int]),
            base == base_at(s, dstart as int),
            p0 == if base == NumBase::Dec {
                dstart + 1
            } else {
                dstart + 2int
            },
            seen_dot ==> base == NumBase::Dec,
            scan_num(s, j as int, base, seen_dot) == scan_num(s, p0 as int, base, false),
        ensures
            p0 <= j <= n,
            seen_dot ==> base == NumBase::Dec,
            scan_num(s, j as int, base, seen_dot) == scan_num(s, p0 as int, base, false),
            j == n || (!spec_valid_digit(base, s[j as int]) && s[j as int] != '.'),
        decreases n - j,
    {
        let c = input_str.get_char(j);
        let valid = base.is_valid_digit(c);
        if !valid && c != '.' {
            break ;
        }
        if c == '.' {
            if seen_dot {
                return Err(
                    TokenizingError::new(
                        line_num,
                        start,
                        j,
                        "Invalid number: multiple decimal points found",
                    ),
                );
            }
            if base != NumBase::Dec {
                return Err(
                    TokenizingError::new(
                        line_num,
                        start,
                        j,
                        "Floats are only supported for decimal numbers",
                    ),
                );
            }
            seen_dot = true;
        }
        j = j + 1;
    }
    let end = j;
    proof {
        assert(scan_num(s, end as int, base, seen_dot) == Ok::<(int, bool), (int, Seq<char>)>(
            (end as int, seen_dot),
        ));
    }
    let num_str = input_str.substring_char(dstart, end);
    let ghost digits = s.subrange(dstart as int, end as int);
    proof {
        assert(num_str@ == digits);
    }
    if seen_dot {
        proof {
            lemma_scan_num_chars(s, p0 as int, base, false);
            let endi = end as int;
            let d0 = dstart as int;
            assert forall|k: int| 0 <= k < digits.len() implies ('0' <= #[trigger] digits[k] <= '9'
                || digits[k] == '.') by {
                assert(digits[k] == s[d0 + k]);
                if k >= 1 {
                    assert(d0 + k >= p0);
                    assert(spec_valid_digit(base, s[d0 + k]) || s[d0 + k] == '.');
                }
            }
            let jw = choose|jj: int| p0 <= jj < endi && #[trigger] s[jj] == '.';
            assert(digits[jw - d0] == '.');
            assert(exists|k: int| 0 <= k < digits.len() && #[trigger] digits[k] == '.');
            assert forall|k1: int, k2: int|
                0 <= k1 < k2 < digits.len() && #[trigger] digits[k1] == '.' implies #[trigger] digits[k2]
                != '.' by {
                assert(digits[k1] == s[d0 + k1]);
                assert(digits[k2] == s[d0 + k2]);
                assert(k1 >= 1);
                assert(d0 + k1 >= p0);
            }
            assert(crate::numeric::is_simple_decimal(digits));
        }
        let fbits = crate::numeric::mul_bits(
            crate::numeric::bits_of_int(if neg {
                -1i64
            } else {
                1i64
            }),
            crate::numeric::bits_of_decimal(num_str),
        );
        let tok = Token::new(
            TokenType::Number,
            TokenContext { line_number: line_num, column_number: start },
            Some(TokenContent::Float(fbits)),
        );
        return Ok((tok, end));
    }
    match base.parse_int(num_str) {
        Ok(v) => {
            let value: i64 = if neg {
                0i64.wrapping_sub(v)
            } else {
                v
            };
            proof {
                lemma_scan_num_chars(s, p0 as int, base, false);
                let d0 = dstart as int;
                // No character of the literal is a sign, so the parsed
                // magnitude is nonnegative.
                assert forall|k: int| 0 <= k < digits.len() implies #[trigger] digits[k] != '-'
                    && digits[k] != '+' by {
                    assert(digits[k] == s[d0 + k]);
                    if k == 0 {
                    } else if base == NumBase::Dec || k >= 2 {
                        assert(d0 + k >= p0);
                        assert(spec_valid_digit(base, s[d0 + k]) || s[d0 + k] == '.');
                        assert(s[d0 + k] != '.');
                    } else {
                        assert(k == 1 && base != NumBase::Dec);
                        assert(s[d0 + 1] == 'x' || s[d0 + 1] == 'b' || s[d0 + 1] == 'o');
                    }
                }
                let t = if base == NumBase::Dec {
                    digits
                } else {
                    crate::value::strip_base_prefix(digits, crate::value::base_prefix_char(base))
                };
                if base != NumBase::Dec {
                    lemma_strip_suffix(digits, crate::value::base_prefix_char(base));
                }
                assert(num_str@ == digits);
                assert(spec_parse_int(base, digits) == Ok::<i64, crate::value::IntParseError>(v));
                assert(t.len() > 0);
                assert(t[0] == digits[digits.len() - t.len()]);
                assert(t[0] != '-' && t[0] != '+');
                crate::value::lemma_scan_digits_range(
                    t,
                    0,
                    0,
                    crate::value::radix_of(base),
                    0x7FFF_FFFF_FFFF_FFFF,
                );
                assert(v >= 0);
                let sg: int = if s[start as int] == '-' {
                    -1int
                } else {
                    1int
                };
                assert(-v >= i64::MIN);
                if s[start as int] == '-' {
                    assert(sg * v == -v) by (nonlinear_arith)
                        requires
                            sg == -1int,
                    ;
                    assert(value as int == -v);
                } else {
                    assert(sg * v == v) by (nonlinear_arith)
                        requires
                            sg == 1int,
                    ;
                }
                assert(value as int == (sg * v) as i64 as int);
            }
            let tok = Token::new(
                TokenType::Number,
                TokenContext { line_number: line_num, column_number: start },
                Some(TokenContent::Int(value)),
            );
            Ok((tok, end))
        },
        Err(_) => Err(TokenizingError::new(line_num, start, start, "Invalid number")),
    }
}

/// Whether an executable lexical error carries exactly the model fault.
pub open spec fn lex_fault_matches(e: TokenizingError, f: LFault) -> bool {
    &&& f.line == e.line_number as int
    &&& f.token_index == e.token_index as int
    &&& f.error_index == e.error_index as int
    &&& f.msg == e.message@
}

/// Appends the gathered tokens to the output vector.
fn flush_tokens(tokens: &mut Vec<Token>, gathered: Vec<Token>)
    ensures
        token_views(final(tokens)@) == token_views(old(tokens)@) + token_views(gathered@),
{
    let ghost a = tokens@;
    let ghost b = gathered@;
    let mut gathered = gathered;
    tokens.append(&mut gathered);
    proof {
        assert(token_views(a + b) =~= token_views(a) + token_views(b));
    }
}

/// Lexes one line of source text (line number `line_num`), appending its
/// tokens to `tokens`; on a fault the tokens completed strictly before the
/// fault point are appended and the first fault of the line is returned.
/// See `spec_lex_line`.
#[verifier::rlimit(100)]
pub fn tokenize_line(input_str: &str, tokens: &mut Vec<Token>, line_num: usize) -> (r: Result<
    (),
    TokenizingError,
>)
    ensures
        match r {
            Ok(_) => {
                &&& spec_lex_line(input_str@, line_num as int, 0) is Ok
                &&& token_views(final(tokens)@) == token_views(old(tokens)@) + spec_lex_line(
                    input_str@,
                    line_num as int,
                    0,
                )->Ok_0
            },
            Err(e) => {
                &&& spec_lex_line(input_str@, line_num as int, 0) is Err
                &&& token_views(final(tokens)@) == token_views(old(tokens)@) + spec_lex_line(
                    input_str@,
                    line_num as int,
                    0,
                )->Err_0.0
                &&& lex_fault_matches(e, spec_lex_line(input_str@, line_num as int, 0)->Err_0.1)
                &&& e.line_number == line_num
            },
        },
{
    let ghost s = input_str@;
    let ghost line = line_num as int;
    let n = input_str.unicode_len();
    let mut out: Vec<Token> = Vec::new();
    let mut i: usize = 0;
    proof {
        assert(token_views(out@) =~= Seq::<STok>::empty());
        assert(Seq::<STok>::empty() + Seq::<STok>::empty() =~= Seq::<STok>::empty());
    }
    while i < n
        invariant
            0 <= i <= n,
            n == s.len(),
            s == input_str@,
            line == line_num as int,
            tokens@ == old(tokens)@,
            spec_lex_line(s, line, 0) == lex_prefixed(
                token_views(out@),
                spec_lex_line(s, line, i as int),
            ),
        decreases n - i,
    {
        let c = input_str.get_char(i);
        let ctx = TokenContext { line_number: line_num, column_number: i };
        if c == ' ' || c == '\t' || c == '\n' || c == '\r' || c == '\u{b}' || c == '\u{c}' {
            i = i + 1;
            continue ;
        }
        if '0' <= c && c <= '9' {
            let (tok, end) = match parse_number(input_str, line_num, i) {
                Ok(p) => p,
                Err(e) => {
                    proof {
                        assert(spec_lex_line(s, line, i as int) is Err);
                        assert(spec_lex_line(s, line, i as int)->Err_0.0 =~= Seq::<STok>::empty());
                        assert(token_views(out@) + Seq::<STok>::empty() =~= token_views(out@));
                        assert(spec_lex_line(s, line, 0)->Err_0.0 == token_views(out@));
                    }
                    flush_tokens(tokens, out);
                    return Err(e);
                },
            };
            proof {
                let st = tok_view(tok);
                lemma_views_push(out@, tok);
                lemma_cons_assoc(s, line, token_views(out@), st, end as int);
            }
            out.push(tok);
            i = end;
            continue ;
        }
        if c == '-' && i + 1 < n && '0' <= input_str.get_char(i + 1) && input_str.get_char(i + 1)
            <= '9' {
            let (tok, end) = match parse_number(input_str, line_num, i) {
                Ok(p) => p,
                Err(e) => {
                    proof {
                        assert(spec_lex_line(s, line, i as int) is Err);
                        assert(spec_lex_line(s, line, i as int)->Err_0.0 =~= Seq::<STok>::empty());
                        assert(token_views(out@) + Seq::<STok>::empty() =~= token_views(out@));
                        assert(spec_lex_line(s, line, 0)->Err_0.0 == token_views(out@));
                    }
                    flush_tokens(tokens, out);
                    return Err(e);
                },
            };
            proof {
                let st = tok_view(tok);
                lemma_views_push(out@, tok);
                lemma_cons_assoc(s, line, token_views(out@), st, end as int);
            }
            out.push(tok);
            i = end;
            continue ;
        }
        if c == '"' {
            // A string literal: consume to the closing quote.
            let mut j: usize = i + 1;
            while j < n && input_str.get_char(j) != '"'
                invariant
                    i + 1 <= j <= n,
                    i < n,
                    n == s.len(),
                    s == input_str@,
                    quote_end(s, i as int + 1) == quote_end(s, j as int),
                decreases n - j,
            {
                j = j + 1;
            }
            proof {
                assert(quote_end(s, j as int) == j as int || quote_end(s, j as int)
                    == s.len() as int);
            }
            if j >= n {
                let ei: usize = if i + 1 < n {
                    n - 1
                } else {
                    0
                };
                proof {
                    assert(token_views(out@) + Seq::<STok>::empty() =~= token_views(out@));
                }
                flush_tokens(tokens, out);
                return Err(TokenizingError::new(line_num, i, ei, "Unclosed String"));
            }
            let content = input_str.substring_char(i + 1, j);
            let tok = Token::new(
                TokenType::StrLit,
                ctx,
                Some(TokenContent::Str(content.to_owned())),
            );
            proof {
                let st = tok_view(tok);
                assert(st.content == Some(SContent::Str(s.subrange(i as int + 1, j as int))));
                lemma_views_push(out@, tok);
                lemma_cons_assoc(s, line, token_views(out@), st, j as int + 1);
            }
            out.push(tok);
            i = j + 1;
            continue ;
        }
        if ('a' <= c && c <= 'z') || ('A' <= c && c <= 'Z') {
            // An identifier: letters, digits and dashes.
            let mut j: usize = i + 1;
            while j < n && (('a' <= input_str.get_char(j) && input_str.get_char(j) <= 'z') || ('A'
                <= input_str.get_char(j) && input_str.get_char(j) <= 'Z') || ('0'
                <= input_str.get_char(j) && input_str.get_char(j) <= '9') || input_str.get_char(j)
                == '-')
                invariant
                    i + 1 <= j <= n,
                    i < n,
                    n == s.len(),
                    s == input_str@,
                    ident_end(s, i as int + 1) == ident_end(s, j as int),
                decreases n - j,
            {
                j = j + 1;
            }
            proof {
                assert(ident_end(s, j as int) == j as int);
            }
            let name = input_str.substring_char(i, j);
            let tok = Token::new(
                TokenType::Identifier,
                ctx,
                Some(TokenContent::Str(name.to_owned())),
            );
            proof {
                let st = tok_view(tok);
                assert(st.content == Some(SContent::Str(s.subrange(i as int, j as int))));
                lemma_views_push(out@, tok);
                lemma_cons_assoc(s, line, token_views(out@), st, j as int);
            }
            out.push(tok);
            i = j;
            continue ;
        }
        // Single- and two-character tokens.
        let (tok, next): (Token, usize) = if c == '(' {
            (Token::new(TokenType::Lparen, ctx, None), i + 1)
        } else if c == ')' {
            (Token::new(TokenType::Rparen, ctx, None), i + 1)
        } else if c == '\'' {
            (Token::new(TokenType::Quote, ctx, None), i + 1)
        } else if c == '+' {
            (
                Token::new(TokenType::Operator, ctx, Some(TokenContent::Operator(Operator::Plus))),
                i + 1,
            )
        } else if c == '-' {
            (
                Token::new(
                    TokenType::Operator,
                    ctx,
                    Some(TokenContent::Operator(Operator::Minus)),
                ),
                i + 1,
            )
        } else if c == '*' {
            (
                Token::new(TokenType::Operator, ctx, Some(TokenContent::Operator(Operator::Mul))),
                i + 1,
            )
        } else if c == '%' {
            (
                Token::new(
                    TokenType::Operator,
                    ctx,
                    Some(TokenContent::Operator(Operator::Modulo)),
                ),
                i + 1,
            )
        } else if c == '^' {
            (
                Token::new(
                    TokenType::Operator,
                    ctx,
                    Some(TokenContent::Operator(Operator::Power)),
                ),
                i + 1,
            )
        } else if c == '=' {
            (
                Token::new(TokenType::Operator, ctx, Some(TokenContent::Operator(Operator::Eq))),
                i + 1,
            )
        } else if c == '>' {
            if i + 1 < n && input_str.get_char(i + 1) == '=' {
                (
                    Token::new(
                        TokenType::Operator,
                        ctx,
                        Some(TokenContent::Operator(Operator::Geq)),
                    ),
                    i + 2,
                )
            } else {
                (
                    Token::new(
                        TokenType::Operator,
                        ctx,
                        Some(TokenContent::Operator(Operator::Gt)),
                    ),
                    i + 1,
                )
            }
        } else if c == '<' {
            if i + 1 < n && input_str.get_char(i + 1) == '=' {
                (
                    Token::new(
                        TokenType::Operator,
                        ctx,
                        Some(TokenContent::Operator(Operator::Leq)),
                    ),
                    i + 2,
                )
            } else {
                (
                    Token::new(
                        TokenType::Operator,
                        ctx,
                        Some(TokenContent::Operator(Operator::Lt)),
                    ),
                    i + 1,
                )
            }
        } else if c == '/' {
            if i + 1 < n && input_str.get_char(i + 1) == '/' {
                (
                    Token::new(
                        TokenType::Operator,
                        ctx,
                        Some(TokenContent::Operator(Operator::IntDiv)),
                    ),
                    i + 2,
                )
            } else {
                (
                    Token::new(
                        TokenType::Operator,
                        ctx,
                        Some(TokenContent::Operator(Operator::Div)),
                    ),
                    i + 1,
                )
            }
        } else if c == '!' {
            if i + 1 < n && input_str.get_char(i + 1) == '=' {
                (
                    Token::new(
                        TokenType::Operator,
                        ctx,
                        Some(TokenContent::Operator(Operator::Neq)),
                    ),
                    i + 2,
                )
            } else {
                let msg = String::from_str("Unrecognized Token '").concat(
                    input_str.substring_char(i, i + 1),
                ).concat("'");
                proof {
                    assert(s.subrange(i as int, i as int + 1) =~= seq![s[i as int]]);
                    assert(token_views(out@) + Seq::<STok>::empty() =~= token_views(out@));
                }
                flush_tokens(tokens, out);
                return Err(TokenizingError::new(line_num, i, i, msg.as_str()));
            }
        } else {
            let msg = String::from_str("Unrecognized Token '").concat(
                input_str.substring_char(i, i + 1),
            ).concat("'");
            proof {
                assert(s.subrange(i as int, i as int + 1) =~= seq![s[i as int]]);
                assert(spec_lex_line(s, line, i as int) is Err);
                assert(spec_lex_line(s, line, i as int)->Err_0.0 =~= Seq::<STok>::empty());
                assert(token_views(out@) + Seq::<STok>::empty() =~= token_views(out@));
                assert(spec_lex_line(s, line, 0)->Err_0.0 == token_views(out@));
            }
            flush_tokens(tokens, out);
            return Err(TokenizingError::new(line_num, i, i, msg.as_str()));
        };
        proof {
            let st = tok_view(tok);
            lemma_views_push(out@, tok);
            lemma_cons_assoc(s, line, token_views(out@), st, next as int);
        }
        out.push(tok);
        i = next;
    }
    proof {
        assert(token_views(out@) + Seq::<STok>::empty() =~= token_views(out@));
    }
    flush_tokens(tokens, out);
    Ok(())
}

/// Lexes the whole input, line by line; see `spec_tokenize`.
pub fn tokenize(input: &str) -> (r: Result<Vec<Token>, TokenizingError>)
    ensures
        match r {
            Ok(v) => spec_tokenize(input@) == Ok::<Seq<STok>, LFault>(token_views(v@)),
            Err(e) => spec_tokenize(input@) matches Err(f) && f.token_index == e.token_index as int
                && f.error_index == e.error_index as int && f.msg == e.message@ && f.line
                == e.line_number as int,
        },
{
    let ghost s = input@;
    let n = input.unicode_len();
    let mut tokens: Vec<Token> = Vec::new();
    let mut pos: usize = 0;
    let mut line_number: usize = 0;
    proof {
        assert(token_views(tokens@) =~= Seq::<STok>::empty());
        assert(s.skip(0) =~= s);
    }
    while pos < n
        invariant
            0 <= pos <= n,
            line_number <= pos,
            n == s.len(),
            s == input@,
            spec_tokenize(s) == input_prefixed(
                token_views(tokens@),
                spec_tokenize_from(s.skip(pos as int), line_number as int),
            ),
        decreases n - pos,
    {
        let ghost suffix = s.skip(pos as int);
        // Find the end of the line.
        let mut j: usize = pos;
        while j < n && input.get_char(j) != '\n'
            invariant
                pos <= j <= n,
                n == s.len(),
                s == input@,
                nl_pos(suffix, 0) == nl_pos(suffix, j - pos),
                suffix == s.skip(pos as int),
                pos <= n,
            decreases n - j,
        {
            proof {
                assert(suffix[j - pos] == s[j as int]);
            }
            j = j + 1;
        }
        proof {
            if j < n {
                assert(suffix[j - pos] == s[j as int]);
            }
            assert(nl_pos(suffix, j - pos) == j - pos);
        }
        // Drop one trailing carriage return, as `str::lines` does.
        let line_end: usize = if j > pos && input.get_char(j - 1) == '\r' {
            j - 1
        } else {
            j
        };
        let line_str = input.substring_char(pos, line_end);
        proof {
            assert(line_str@ == s.subrange(pos as int, line_end as int));
            assert(suffix.take(j - pos) =~= s.subrange(pos as int, j as int));
            if j > pos && s[j as int - 1] == '\r' {
                assert(suffix.take(j - pos).last() == s[j as int - 1]);
                assert(strip_cr(suffix.take(j - pos)) =~= s.subrange(pos as int, j as int - 1));
            } else {
                assert(strip_cr(suffix.take(j - pos)) =~= s.subrange(pos as int, j as int));
            }
            assert(strip_cr(suffix.take(j - pos)) == line_str@);
        }
        let ghost before = tokens@;
        match tokenize_line(line_str, &mut tokens, line_number) {
            Ok(_) => {},
            Err(e) => {
                return Err(e);
            },
        }
        proof {
            let ts = spec_lex_line(line_str@, line_number as int, 0)->Ok_0;
            assert(token_views(tokens@) == token_views(before) + ts);
        }
        let next_pos: usize = if j < n {
            j + 1
        } else {
            n
        };
        proof {
            if j < n {
                assert(suffix.skip(j - pos + 1) =~= s.skip(j as int + 1));
            } else {
                assert(s.skip(n as int) =~= Seq::<char>::empty());
            }
            let ts = spec_lex_line(line_str@, line_number as int, 0)->Ok_0;
            assert forall|rest: Seq<STok>|
                token_views(before) + (ts + rest) =~= token_views(tokens@) + rest by {}
        }
        pos = next_pos;
        line_number = line_number + 1;
    }
    proof {
        assert(s.skip(pos as int).len() == 0);
        assert(token_views(tokens@) + Seq::<STok>::empty() =~= token_views(tokens@));
    }
    Ok(tokens)
}

} // verus!
