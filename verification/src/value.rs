//! The value model: a closed scalar union with exact promotion, demotion,
//! comparison and equality rules.

use vstd::prelude::*;
use vstd::string::{StrSliceExecFns, StringExecFns};

use crate::errors::RuntimeError;
use crate::numeric::{
    abs_bits, fp_add, fp_div, fp_lt, fp_mul, fp_of_int, fp_pow, fp_rem, fp_sub, fract_is_zero,
    trunc_to_i64, EPSILON_BITS, NEG_ONE_BITS,
};
use crate::numeric::{abs_of, add_bits, bits_of_int, div_bits, fract_zero_of, lt_bits, mul_bits,
    pow_bits, rem_bits, sub_bits, trunc_to_i64_of};

verus! {

/// The numeral base of an integer literal.
#[derive(Debug, Clone, Copy, PartialEq, Eq, Structural)]
pub enum NumBase {
    Dec,
    Hex,
    Oct,
    Bin,
}

/// Why an integer literal failed to parse.
#[derive(Debug, Clone, Copy, PartialEq, Eq, Structural)]
pub enum IntParseError {
    Empty,
    InvalidDigit,
    Overflow,
}

pub open spec fn is_digit_char(c: char) -> bool {
    '0' <= c <= '9'
}

pub open spec fn is_hex_digit_char(c: char) -> bool {
    is_digit_char(c) || ('a' <= c <= 'f') || ('A' <= c <= 'F')
}

/// Which characters the lexer accepts as digits of a literal in this base.
pub open spec fn spec_valid_digit(base: NumBase, c: char) -> bool {
    match base {
        NumBase::Dec => is_digit_char(c),
        NumBase::Bin => c == '0' || c == '1',
        NumBase::Oct => '0' <= c <= '7',
        NumBase::Hex => is_hex_digit_char(c),
    }
}

pub open spec fn radix_of(base: NumBase) -> int {
    match base {
        NumBase::Dec => 10,
        NumBase::Hex => 16,
        NumBase::Oct => 8,
        NumBase::Bin => 2,
    }
}

/// The numeric value of a digit character, or the radix itself for a
/// character that is no digit (so that `digit_val(c) < radix` means "valid").
pub open spec fn digit_val(c: char) -> int {
    if '0' <= c <= '9' {
        c as int - '0' as int
    } else if 'a' <= c <= 'z' {
        c as int - 'a' as int + 10
    } else if 'A' <= c <= 'Z' {
        c as int - 'A' as int + 10
    } else {
        36
    }
}

/// The prefix characters that announce a non-decimal base.
pub open spec fn base_prefix_char(base: NumBase) -> char {
    match base {
        NumBase::Hex => 'x',
        NumBase::Oct => 'o',
        NumBase::Bin => 'b',
        NumBase::Dec => ' ',  // decimal literals carry no prefix
    }
}

/// Repeated stripping of a leading `0x`/`0o`/`0b`, as `trim_start_matches`
/// does.
pub open spec fn strip_base_prefix(s: Seq<char>, p: char) -> Seq<char>
    decreases s.len(),
{
    if s.len() >= 2 && s[0] == '0' && s[1] == p {
        strip_base_prefix(s.skip(2), p)
    } else {
        s
    }
}

/// Scan of the digits of `s` from index `i` with accumulated magnitude
/// `acc`, in the given radix, against an inclusive magnitude bound:
/// the first invalid character fails, and so does the first step that
/// pushes the magnitude over the bound.
pub open spec fn spec_scan_digits(s: Seq<char>, i: int, acc: int, radix: int, bound: int) -> Result<
    int,
    IntParseError,
>
    decreases s.len() - i,
    when 0 <= i <= s.len()
{
    if i == s.len() {
        Ok(acc)
    } else if digit_val(s[i]) >= radix {
        Err(IntParseError::InvalidDigit)
    } else if acc * radix + digit_val(s[i]) > bound {
        Err(IntParseError::Overflow)
    } else {
        spec_scan_digits(s, i + 1, acc * radix + digit_val(s[i]), radix, bound)
    }
}

/// A successful digit scan stays within `[0, max(acc, bound)]`.
pub proof fn lemma_scan_digits_range(s: Seq<char>, i: int, acc: int, radix: int, bound: int)
    requires
        0 <= i <= s.len(),
        0 <= acc,
        2 <= radix,
        spec_scan_digits(s, i, acc, radix, bound) is Ok,
    ensures
        0 <= spec_scan_digits(s, i, acc, radix, bound)->Ok_0,
        spec_scan_digits(s, i, acc, radix, bound)->Ok_0 <= (if acc > bound {
            acc
        } else {
            bound
        }),
    decreases s.len() - i,
{
    if i == s.len() {
    } else if digit_val(s[i]) >= radix {
    } else if acc * radix + digit_val(s[i]) > bound {
    } else {
        assert(acc * radix + digit_val(s[i]) >= 0) by (nonlinear_arith)
            requires
                acc >= 0,
                radix >= 2,
                digit_val(s[i]) >= 0,
        ;
        lemma_scan_digits_range(s, i + 1, acc * radix + digit_val(s[i]), radix, bound);
    }
}

/// The integer a literal denotes, after prefix stripping, with an optional
/// leading sign, per the grammar of `from_str_radix`.
pub open spec fn spec_parse_int(base: NumBase, s: Seq<char>) -> Result<i64, IntParseError> {
    let t = if base == NumBase::Dec {
        s
    } else {
        strip_base_prefix(s, base_prefix_char(base))
    };
    if t.len() == 0 {
        Err(IntParseError::Empty)
    } else {
        let neg = t[0] == '-';
        let digits = if t[0] == '-' || t[0] == '+' {
            t.skip(1)
        } else {
            t
        };
        if digits.len() == 0 {
            Err(IntParseError::Empty)
        } else {
            let bound: int = if neg {
                0x8000_0000_0000_0000
            } else {
                0x7FFF_FFFF_FFFF_FFFF
            };
            match spec_scan_digits(digits, 0, 0, radix_of(base), bound) {
                Ok(mag) => Ok((if neg {
                    -mag
                } else {
                    mag
                }) as i64),
                Err(e) => Err(e),
            }
        }
    }
}

impl NumBase {
    /// Whether the lexer accepts `digit` as a further digit of a literal in
    /// this base.
    pub fn is_valid_digit(self, digit: char) -> (r: bool)
        ensures
            r == spec_valid_digit(self, digit),
    {
        match self {
            NumBase::Dec => '0' <= digit && digit <= '9',
            NumBase::Bin => digit == '0' || digit == '1',
            NumBase::Oct => '0' <= digit && digit <= '7',
            NumBase::Hex => ('0' <= digit && digit <= '9') || ('a' <= digit && digit <= 'f') || (
            'A' <= digit && digit <= 'F'),
        }
    }

    /// Parses an integer literal in this base, stripping a repeated `0x`,
    /// `0o` or `0b` prefix for the non-decimal bases, with an optional
    /// leading sign, rejecting invalid digits and values outside `i64`.
    #[verifier::rlimit(100)]
    #[verifier::spinoff_prover]
    pub fn parse_int(self, num_str: &str) -> (r: Result<i64, IntParseError>)
        ensures
            r == spec_parse_int(self, num_str@),
    {
        let n = num_str.unicode_len();
        let ghost s = num_str@;
        // Strip the repeated base prefix.
        let mut start: usize = 0;
        let p: char = match self {
            NumBase::Hex => 'x',
            NumBase::Oct => 'o',
            NumBase::Bin => 'b',
            NumBase::Dec => ' ',
        };
        proof {
            assert(s.skip(0) =~= s);
        }
        if self != NumBase::Dec {
            while n - start >= 2 && num_str.get_char(start) == '0' && num_str.get_char(start + 1)
                == p
                invariant
                    0 <= start <= n,
                    n == s.len(),
                    s == num_str@,
                    p == base_prefix_char(self),
                    strip_base_prefix(s, p) == strip_base_prefix(s.skip(start as int), p),
                decreases n - start,
            {
                proof {
                    assert(s.skip(start as int).skip(2) =~= s.skip(start as int + 2));
                }
                start = start + 2;
            }
            proof {
                assert(strip_base_prefix(s.skip(start as int), p) =~= s.skip(start as int));
            }
        }
        let ghost t = if self == NumBase::Dec {
            s
        } else {
            strip_base_prefix(s, p)
        };
        proof {
            assert(t =~= s.skip(start as int));
        }
        if start == n {
            return Err(IntParseError::Empty);
        }
        // Optional sign.
        let first = num_str.get_char(start);
        let neg = first == '-';
        let dstart: usize = if first == '-' || first == '+' {
            start + 1
        } else {
            start
        };
        let ghost digits = if t[0] == '-' || t[0] == '+' {
            t.skip(1)
        } else {
            t
        };
        proof {
            assert(digits =~= s.skip(dstart as int));
        }
        if dstart == n {
            return Err(IntParseError::Empty);
        }
        let radix: u64 = match self {
            NumBase::Dec => 10,
            NumBase::Hex => 16,
            NumBase::Oct => 8,
            NumBase::Bin => 2,
        };
        let bound: u64 = if neg {
            0x8000_0000_0000_0000
        } else {
            0x7FFF_FFFF_FFFF_FFFF
        };
        // Scan the digits.
        let mut acc: u64 = 0;
        let mut i: usize = dstart;
        while i < n
            invariant
                dstart <= i <= n,
                n == s.len(),
                s == num_str@,
                t == (if self == NumBase::Dec {
                    s
                } else {
                    strip_base_prefix(s, base_prefix_char(self))
                }),
                t.len() > 0,
                neg == (t[0] == '-'),
                digits == (if t[0] == '-' || t[0] == '+' {
                    t.skip(1)
                } else {
                    t
                }),
                digits.len() > 0,
                digits =~= s.skip(dstart as int),
                acc <= bound,
                bound == if neg {
                    0x8000_0000_0000_0000u64
                } else {
                    0x7FFF_FFFF_FFFF_FFFFu64
                },
                radix == radix_of(self),
                spec_scan_digits(digits, 0, 0, radix_of(self), bound as int) == spec_scan_digits(
                    digits,
                    i - dstart,
                    acc as int,
                    radix_of(self),
                    bound as int,
                ),
            decreases n - i,
        {
            let c = num_str.get_char(i);
            proof {
                assert(digits[i - dstart] == c);
            }
            let dv: u64 = if '0' <= c && c <= '9' {
                c as u64 - '0' as u64
            } else if 'a' <= c && c <= 'z' {
                c as u64 - 'a' as u64 + 10
            } else if 'A' <= c && c <= 'Z' {
                c as u64 - 'A' as u64 + 10
            } else {
                36
            };
            proof {
                assert(dv as int == digit_val(c));
            }
            if dv >= radix {
                proof {
                    assert(spec_scan_digits(
                        digits,
                        i - dstart,
                        acc as int,
                        radix_of(self),
                        bound as int,
                    ) == Err::<int, IntParseError>(IntParseError::InvalidDigit));
                }
                return Err(IntParseError::InvalidDigit);
            }
            if acc > (bound - dv) / radix {
                proof {
                    let b = bound as int;
                    let r = radix_of(self);
                    assert(acc * r >= ((b - dv) / r + 1) * r) by (nonlinear_arith)
                        requires
                            acc >= (b - dv) / r + 1,
                            r >= 2,
                    ;
                    assert(((b - dv) / r + 1) * r == (b - dv) / r * r + r) by (nonlinear_arith);
                    assert((b - dv) / r * r + r > b - dv);
                    assert(acc * r + dv > b);
                    assert(spec_scan_digits(digits, i - dstart, acc as int, r, b) == Err::<
                        int,
                        IntParseError,
                    >(IntParseError::Overflow));
                }
                return Err(IntParseError::Overflow);
            }
            proof {
                let b = bound as int;
                let r = radix_of(self);
                assert(acc * r + dv <= b) by (nonlinear_arith)
                    requires
                        acc <= (b - dv) / r,
                        r >= 2,
                        dv >= 0,
                ;
            }
            acc = acc * radix + dv;
            i = i + 1;
        }
        // The whole digit run was consumed and stayed within the bound.
        if neg {
            if acc == 0x8000_0000_0000_0000 {
                Ok(i64::MIN)
            } else {
                Ok(-(acc as i64))
            }
        } else {
            Ok(acc as i64)
        }
    }
}

// ------------------------------------------------------------------
// The value union and its arithmetic.
// ------------------------------------------------------------------

/// The mathematical model of a `Value`: the same union with the string
/// payload abstracted to its character sequence.
pub ghost enum SVal {
    Int(i64),
    Float(u64),
    Boolean(bool),
    Str(Seq<char>),
    Null,
}

/// A value of the expression language.  `Float` carries the IEEE 754
/// binary64 bit pattern of its value; `Null` is the sentinel for an
/// operation that is not meaningful on its operand kinds.
#[derive(Debug)]
pub enum Value {
    Int(i64),
    Float(u64),
    Boolean(bool),
    Str(String),
    Null,
}

impl View for Value {
    type V = SVal;

    open spec fn view(&self) -> SVal {
        match self {
            Value::Int(i) => SVal::Int(*i),
            Value::Float(b) => SVal::Float(*b),
            Value::Boolean(b) => SVal::Boolean(*b),
            Value::Str(s) => SVal::Str(s@),
            Value::Null => SVal::Null,
        }
    }
}

impl Clone for Value {
    fn clone(&self) -> (r: Self)
        ensures
            r == *self,
    {
        match self {
            Value::Int(i) => Value::Int(*i),
            Value::Float(b) => Value::Float(*b),
            Value::Boolean(b) => Value::Boolean(*b),
            Value::Str(s) => Value::Str(s.clone()),
            Value::Null => Value::Null,
        }
    }
}

pub open spec fn sval_is_numeric(v: SVal) -> bool {
    v is Int || v is Float
}

/// The bit pattern of a numeric model value, the integer promoted.
pub open spec fn spec_num_bits(v: SVal) -> u64 {
    match v {
        SVal::Int(i) => fp_of_int(i),
        SVal::Float(b) => b,
        _ => 0,
    }
}

/// Demotion: a float result whose fractional part is exactly zero becomes
/// the integer it equals; otherwise it stays a float.
pub open spec fn spec_demote(bits: u64) -> SVal {
    if fract_is_zero(bits) {
        SVal::Int(trunc_to_i64(bits))
    } else {
        SVal::Float(bits)
    }
}

/// Equality of values: exact on integers, booleans and strings; floats are
/// equal within an absolute tolerance; values of different kinds are
/// unequal, and so are two `Null`s: the sentinel equals nothing.
pub open spec fn spec_value_eq(l: SVal, r: SVal) -> bool {
    match (l, r) {
        (SVal::Int(a), SVal::Int(b)) => a == b,
        (SVal::Float(a), SVal::Float(b)) => fp_lt(abs_bits(fp_sub(a, b)), EPSILON_BITS),
        (SVal::Boolean(a), SVal::Boolean(b)) => a == b,
        (SVal::Str(a), SVal::Str(b)) => a == b,
        _ => false,
    }
}

/// Addition: integers stay integers (wrapping), mixed and float operands go
/// through the float path and are demoted, strings concatenate, anything
/// else yields the `Null` sentinel.
pub open spec fn spec_add(l: SVal, r: SVal) -> SVal {
    match (l, r) {
        (SVal::Int(a), SVal::Int(b)) => SVal::Int(vstd::wrapping::i64_specs::wrapping_add(a, b)),
        (SVal::Int(a), SVal::Float(b)) => spec_demote(fp_add(fp_of_int(a), b)),
        (SVal::Float(a), SVal::Int(b)) => spec_demote(fp_add(a, fp_of_int(b))),
        (SVal::Float(a), SVal::Float(b)) => spec_demote(fp_add(a, b)),
        (SVal::Str(a), SVal::Str(b)) => SVal::Str(a + b),
        _ => SVal::Null,
    }
}

/// Multiplication: like addition but with no string case.
pub open spec fn spec_mul(l: SVal, r: SVal) -> SVal {
    match (l, r) {
        (SVal::Int(a), SVal::Int(b)) => SVal::Int(vstd::wrapping::i64_specs::wrapping_mul(a, b)),
        (SVal::Int(a), SVal::Float(b)) => spec_demote(fp_mul(fp_of_int(a), b)),
        (SVal::Float(a), SVal::Int(b)) => spec_demote(fp_mul(a, fp_of_int(b))),
        (SVal::Float(a), SVal::Float(b)) => spec_demote(fp_mul(a, b)),
        _ => SVal::Null,
    }
}

pub open spec fn msg_incompatible() -> Seq<char> {
    "Incompatible types for arithmetic"@
}

/// The kind of a value, as error messages name it.
pub open spec fn sval_kind_name(v: SVal) -> Seq<char> {
    match v {
        SVal::Int(_) => "Int"@,
        SVal::Float(_) => "Float"@,
        SVal::Boolean(_) => "Boolean"@,
        SVal::Str(_) => "String"@,
        SVal::Null => "Null"@,
    }
}

/// The comparison error names the two incompatible kinds.
pub open spec fn msg_comparison(l: SVal, r: SVal) -> Seq<char> {
    "Incompatible types for comparison: "@ + sval_kind_name(l) + " and "@ + sval_kind_name(r)
}

pub open spec fn msg_modulo_zero() -> Seq<char> {
    "Modulo by zero"@
}

pub open spec fn msg_negate() -> Seq<char> {
    "Cannot negate this value"@
}

/// Subtraction: integers stay integers (wrapping); mixed and float operands
/// are demoted; non-numeric operands fail.
pub open spec fn spec_sub(l: SVal, r: SVal) -> Result<SVal, Seq<char>> {
    match (l, r) {
        (SVal::Int(a), SVal::Int(b)) => Ok(
            SVal::Int(vstd::wrapping::i64_specs::wrapping_sub(a, b)),
        ),
        (SVal::Int(a), SVal::Float(b)) => Ok(spec_demote(fp_sub(fp_of_int(a), b))),
        (SVal::Float(a), SVal::Int(b)) => Ok(spec_demote(fp_sub(a, fp_of_int(b)))),
        (SVal::Float(a), SVal::Float(b)) => Ok(spec_demote(fp_sub(a, b))),
        _ => Err(msg_incompatible()),
    }
}

/// Division: always computed in floating point, then demoted.
pub open spec fn spec_div(l: SVal, r: SVal) -> Result<SVal, Seq<char>> {
    if sval_is_numeric(l) && sval_is_numeric(r) {
        Ok(spec_demote(fp_div(spec_num_bits(l), spec_num_bits(r))))
    } else {
        Err(msg_incompatible())
    }
}

/// Integer division: the floating quotient truncated to its integer part.
pub open spec fn spec_int_div(l: SVal, r: SVal) -> Result<SVal, Seq<char>> {
    if sval_is_numeric(l) && sval_is_numeric(r) {
        Ok(SVal::Int(trunc_to_i64(fp_div(spec_num_bits(l), spec_num_bits(r)))))
    } else {
        Err(msg_incompatible())
    }
}

/// Rust's `%` on mathematical integers: the remainder takes the sign of the
/// dividend.
pub open spec fn trunc_rem(l: int, r: int) -> int {
    let la = if l < 0 {
        -l
    } else {
        l
    };
    let ra = if r < 0 {
        -r
    } else {
        r
    };
    if l < 0 {
        -(la % ra)
    } else {
        la % ra
    }
}

/// The modulo of the language: the result takes the sign of the divisor
/// (equal to `((l % r) + r) % r` over the integers).
pub open spec fn floor_mod(l: int, r: int) -> int {
    let m = trunc_rem(l, r);
    if m != 0 && ((m < 0) != (r < 0)) {
        m + r
    } else {
        m
    }
}

/// Modulo: integer operands stay integers and follow the sign of the
/// divisor; a zero integer divisor fails; mixed and float operands go
/// through the float remainder formula `((l % r) + r) % r` and are demoted.
pub open spec fn spec_rem(l: SVal, r: SVal) -> Result<SVal, Seq<char>> {
    match (l, r) {
        (SVal::Int(a), SVal::Int(b)) => if b == 0 {
            Err(msg_modulo_zero())
        } else {
            Ok(SVal::Int(floor_mod(a as int, b as int) as i64))
        },
        _ => {
            if sval_is_numeric(l) && sval_is_numeric(r) {
                let lb = spec_num_bits(l);
                let rb = spec_num_bits(r);
                Ok(spec_demote(fp_rem(fp_add(fp_rem(lb, rb), rb), rb)))
            } else {
                Err(msg_incompatible())
            }
        },
    }
}

/// Exponentiation: computed in floating point, then demoted.
pub open spec fn spec_pow(l: SVal, r: SVal) -> Result<SVal, Seq<char>> {
    if sval_is_numeric(l) && sval_is_numeric(r) {
        Ok(spec_demote(fp_pow(spec_num_bits(l), spec_num_bits(r))))
    } else {
        Err(msg_incompatible())
    }
}

/// Unary negation: numbers are multiplied by minus one (wrapping for the
/// extreme integer), booleans are flipped, anything else fails.
pub open spec fn spec_negate(v: SVal) -> Result<SVal, Seq<char>> {
    match v {
        SVal::Boolean(b) => Ok(SVal::Boolean(!b)),
        SVal::Float(b) => Ok(SVal::Float(fp_mul(b, NEG_ONE_BITS))),
        SVal::Int(i) => Ok(SVal::Int(vstd::wrapping::i64_specs::wrapping_mul(i, -1i64))),
        _ => Err(msg_negate()),
    }
}

/// Comparison of two numeric values: the sign of their floating difference
/// (`-1`, `0` or `1`); `None` when an operand is not numeric.
pub open spec fn spec_compare(l: SVal, r: SVal) -> Option<i64> {
    if sval_is_numeric(l) && sval_is_numeric(r) {
        let d = fp_sub(spec_num_bits(l), spec_num_bits(r));
        Some(
            if fp_lt(d, 0u64) {
                -1i64
            } else if fp_lt(0u64, d) {
                1i64
            } else {
                0i64
            },
        )
    } else {
        None
    }
}

impl PartialEq for Value {
    /// Equality per `spec_value_eq`: floats within tolerance, others exact.
    fn eq(&self, other: &Self) -> (r: bool) {
        match (self, other) {
            (Value::Int(a), Value::Int(b)) => *a == *b,
            (Value::Float(a), Value::Float(b)) => lt_bits(
                abs_of(sub_bits(*a, *b)),
                EPSILON_BITS,
            ),
            (Value::Boolean(a), Value::Boolean(b)) => *a == *b,
            (Value::Str(a), Value::Str(b)) => a.eq(b),
            _ => false,
        }
    }
}

impl vstd::std_specs::cmp::PartialEqSpecImpl for Value {
    open spec fn obeys_eq_spec() -> bool {
        true
    }

    open spec fn eq_spec(&self, other: &Value) -> bool {
        spec_value_eq(self@, other@)
    }
}

impl Value {
    /// Whether the value is a number (integer or float).
    pub fn is_numeric(&self) -> (r: bool)
        ensures
            r == sval_is_numeric(self@),
    {
        match self {
            Value::Int(_) => true,
            Value::Float(_) => true,
            _ => false,
        }
    }

    /// An integer becomes the nearest float; every other value is unchanged.
    pub fn promote_to_float(self) -> (r: Self)
        ensures
            r@ == (match self@ {
                SVal::Int(i) => SVal::Float(fp_of_int(i)),
                other => other,
            }),
    {
        match self {
            Value::Int(i) => Value::Float(bits_of_int(i)),
            other => other,
        }
    }

    /// The bit pattern of a numeric value, the integer promoted.
    pub fn get_numeric_value_as_float(&self) -> (r: Option<u64>)
        ensures
            r == (if sval_is_numeric(self@) {
                Some(spec_num_bits(self@))
            } else {
                None::<u64>
            }),
    {
        match self {
            Value::Int(v) => Some(bits_of_int(*v)),
            Value::Float(v) => Some(*v),
            _ => None,
        }
    }

    /// Addition; see `spec_add`.
    pub fn add(self, rhs: Value) -> (r: Value)
        ensures
            r@ == spec_add(self@, rhs@),
    {
        match (self, rhs) {
            (Value::Int(a), Value::Int(b)) => Value::Int(a.wrapping_add(b)),
            (Value::Int(a), Value::Float(b)) => demote(add_bits(bits_of_int(a), b)),
            (Value::Float(a), Value::Int(b)) => demote(add_bits(a, bits_of_int(b))),
            (Value::Float(a), Value::Float(b)) => demote(add_bits(a, b)),
            (Value::Str(a), Value::Str(b)) => Value::Str(a.concat(b.as_str())),
            _ => Value::Null,
        }
    }

    /// Multiplication; see `spec_mul`.
    pub fn mul(self, rhs: Value) -> (r: Value)
        ensures
            r@ == spec_mul(self@, rhs@),
    {
        match (self, rhs) {
            (Value::Int(a), Value::Int(b)) => Value::Int(a.wrapping_mul(b)),
            (Value::Int(a), Value::Float(b)) => demote(mul_bits(bits_of_int(a), b)),
            (Value::Float(a), Value::Int(b)) => demote(mul_bits(a, bits_of_int(b))),
            (Value::Float(a), Value::Float(b)) => demote(mul_bits(a, b)),
            _ => Value::Null,
        }
    }

    /// Subtraction; see `spec_sub`.
    pub fn sub(self, rhs: Value) -> (r: Result<Value, RuntimeError>)
        ensures
            match r {
                Ok(v) => spec_sub(self@, rhs@) == Ok::<SVal, Seq<char>>(v@),
                Err(e) => spec_sub(self@, rhs@) == Err::<SVal, Seq<char>>(e.message@),
            },
    {
        match (self, rhs) {
            (Value::Int(a), Value::Int(b)) => Ok(Value::Int(a.wrapping_sub(b))),
            (Value::Int(a), Value::Float(b)) => Ok(demote(sub_bits(bits_of_int(a), b))),
            (Value::Float(a), Value::Int(b)) => Ok(demote(sub_bits(a, bits_of_int(b)))),
            (Value::Float(a), Value::Float(b)) => Ok(demote(sub_bits(a, b))),
            _ => Err(RuntimeError::new(incompatible_message())),
        }
    }

    /// Division; see `spec_div`.
    pub fn div(self, rhs: Value) -> (r: Result<Value, RuntimeError>)
        ensures
            match r {
                Ok(v) => spec_div(self@, rhs@) == Ok::<SVal, Seq<char>>(v@),
                Err(e) => spec_div(self@, rhs@) == Err::<SVal, Seq<char>>(e.message@),
            },
    {
        match (self.get_numeric_value_as_float(), rhs.get_numeric_value_as_float()) {
            (Some(a), Some(b)) => Ok(demote(div_bits(a, b))),
            _ => Err(RuntimeError::new(incompatible_message())),
        }
    }

    /// Integer division; see `spec_int_div`.
    pub fn int_div(self, rhs: Value) -> (r: Result<Value, RuntimeError>)
        ensures
            match r {
                Ok(v) => spec_int_div(self@, rhs@) == Ok::<SVal, Seq<char>>(v@),
                Err(e) => spec_int_div(self@, rhs@) == Err::<SVal, Seq<char>>(e.message@),
            },
    {
        match (self.get_numeric_value_as_float(), rhs.get_numeric_value_as_float()) {
            (Some(a), Some(b)) => Ok(Value::Int(trunc_to_i64_of(div_bits(a, b)))),
            _ => Err(RuntimeError::new(incompatible_message())),
        }
    }

    /// Modulo; see `spec_rem`.
    pub fn modulo(self, rhs: Value) -> (r: Result<Value, RuntimeError>)
        ensures
            match r {
                Ok(v) => spec_rem(self@, rhs@) == Ok::<SVal, Seq<char>>(v@),
                Err(e) => spec_rem(self@, rhs@) == Err::<SVal, Seq<char>>(e.message@),
            },
    {
        match (self, rhs) {
            (Value::Int(a), Value::Int(b)) => {
                if b == 0 {
                    Err(RuntimeError::new(modulo_zero_message()))
                } else {
                    Ok(Value::Int(floor_mod_i64(a, b)))
                }
            },
            (l, r2) => {
                match (l.get_numeric_value_as_float(), r2.get_numeric_value_as_float()) {
                    (Some(a), Some(b)) => Ok(demote(rem_bits(add_bits(rem_bits(a, b), b), b))),
                    _ => Err(RuntimeError::new(incompatible_message())),
                }
            },
        }
    }

    /// Exponentiation; see `spec_pow`.
    pub fn pow(self, rhs: Value) -> (r: Result<Value, RuntimeError>)
        ensures
            match r {
                Ok(v) => spec_pow(self@, rhs@) == Ok::<SVal, Seq<char>>(v@),
                Err(e) => spec_pow(self@, rhs@) == Err::<SVal, Seq<char>>(e.message@),
            },
    {
        match (self.get_numeric_value_as_float(), rhs.get_numeric_value_as_float()) {
            (Some(a), Some(b)) => Ok(demote(pow_bits(a, b))),
            _ => Err(RuntimeError::new(incompatible_message())),
        }
    }

    /// Unary negation; see `spec_negate`.
    pub fn negate(self) -> (r: Result<Value, RuntimeError>)
        ensures
            match r {
                Ok(v) => spec_negate(self@) == Ok::<SVal, Seq<char>>(v@),
                Err(e) => spec_negate(self@) == Err::<SVal, Seq<char>>(e.message@),
            },
    {
        match self {
            Value::Boolean(b) => Ok(Value::Boolean(!b)),
            Value::Float(b) => Ok(Value::Float(mul_bits(b, NEG_ONE_BITS))),
            Value::Int(i) => Ok(Value::Int(i.wrapping_mul(-1))),
            _ => Err(RuntimeError::new(negate_message())),
        }
    }

    /// The kind of the value, as error messages name it.
    pub fn kind_name(&self) -> (s: &'static str)
        ensures
            s@ == sval_kind_name(self@),
    {
        match self {
            Value::Int(_) => "Int",
            Value::Float(_) => "Float",
            Value::Boolean(_) => "Boolean",
            Value::Str(_) => "String",
            Value::Null => "Null",
        }
    }

    /// Comparison of numeric values; see `spec_compare`.  The error names
    /// the two operand kinds.
    pub fn compare_to(&self, rhs: &Self) -> (r: Result<i64, RuntimeError>)
        ensures
            match r {
                Ok(c) => spec_compare(self@, rhs@) == Some(c),
                Err(e) => spec_compare(self@, rhs@) is None && e.message@ == msg_comparison(
                    self@,
                    rhs@,
                ),
            },
    {
        match (self.get_numeric_value_as_float(), rhs.get_numeric_value_as_float()) {
            (Some(a), Some(b)) => {
                let d = sub_bits(a, b);
                if lt_bits(d, 0) {
                    Ok(-1)
                } else if lt_bits(0, d) {
                    Ok(1)
                } else {
                    Ok(0)
                }
            },
            _ => {
                let msg = String::from_str("Incompatible types for comparison: ").concat(
                    self.kind_name(),
                ).concat(" and ").concat(rhs.kind_name());
                proof {
                    assert(msg@ =~= msg_comparison(self@, rhs@));
                }
                Err(RuntimeError::new(msg))
            },
        }
    }
}

/// Demotion of a float result; see `spec_demote`.
pub fn demote(bits: u64) -> (v: Value)
    ensures
        v@ == spec_demote(bits),
{
    if fract_zero_of(bits) {
        Value::Int(trunc_to_i64_of(bits))
    } else {
        Value::Float(bits)
    }
}

/// The modulo of two machine integers; see `floor_mod`.  The divisor must
/// not be zero.
pub fn floor_mod_i64(l: i64, r: i64) -> (m: i64)
    requires
        r != 0,
    ensures
        m == floor_mod(l as int, r as int),
{
    if r == -1 {
        proof {
            let la: int = if l < 0 {
                -(l as int)
            } else {
                l as int
            };
            assert(la % 1 == 0);
        }
        return 0i64;
    }
    let la: u64 = if l == i64::MIN {
        0x8000_0000_0000_0000
    } else if l < 0 {
        (-l) as u64
    } else {
        l as u64
    };
    let ra: u64 = if r == i64::MIN {
        0x8000_0000_0000_0000
    } else if r < 0 {
        (-r) as u64
    } else {
        r as u64
    };
    let ma: u64 = la % ra;
    let m: i64 = if l < 0 {
        -(ma as i64)
    } else {
        ma as i64
    };
    proof {
        assert(ma < ra);
        assert(m == trunc_rem(l as int, r as int));
    }
    if m != 0 && ((m < 0) != (r < 0)) {
        m + r
    } else {
        m
    }
}

/// A value is canonical when it is not a float whose fractional part is
/// exactly zero: such a float would have been demoted to an integer.
pub open spec fn sval_canonical(v: SVal) -> bool {
    v matches SVal::Float(b) ==> !fract_is_zero(b)
}

/// The demotion rule is idempotent: every arithmetic operation returns a
/// canonical value, so feeding a demoted integer result back through the
/// same operator can never reintroduce a float with a zero fractional part.
pub proof fn lemma_demotion_canonical(l: SVal, r: SVal)
    ensures
        sval_canonical(spec_add(l, r)),
        sval_canonical(spec_mul(l, r)),
        spec_sub(l, r) matches Ok(v) ==> sval_canonical(v),
        spec_div(l, r) matches Ok(v) ==> sval_canonical(v),
        spec_int_div(l, r) matches Ok(v) ==> sval_canonical(v),
        spec_rem(l, r) matches Ok(v) ==> sval_canonical(v),
        spec_pow(l, r) matches Ok(v) ==> sval_canonical(v),
{
}

// ------------------------------------------------------------------
// Display.
// ------------------------------------------------------------------

/// The digit character of a value below ten.
pub open spec fn digit_char(d: int) -> char {
    if d == 0 {
        '0'
    } else if d == 1 {
        '1'
    } else if d == 2 {
        '2'
    } else if d == 3 {
        '3'
    } else if d == 4 {
        '4'
    } else if d == 5 {
        '5'
    } else if d == 6 {
        '6'
    } else if d == 7 {
        '7'
    } else if d == 8 {
        '8'
    } else {
        '9'
    }
}

/// The decimal rendering of a nonnegative integer.
pub open spec fn dec_str(m: int) -> Seq<char>
    decreases m,
    when m >= 0
{
    if m < 10 {
        seq![digit_char(m)]
    } else {
        dec_str(m / 10).push(digit_char(m % 10))
    }
}

/// The rendering of a machine integer: a minus sign and the magnitude.
pub open spec fn spec_i64_str(v: i64) -> Seq<char> {
    if v < 0 {
        seq!['-'] + dec_str(-(v as int))
    } else {
        dec_str(v as int)
    }
}

/// The rendering of a value: integers and booleans as their literal forms,
/// floats as the numeric kernel renders them, strings quoted, and the
/// sentinel as a null marker.
pub open spec fn spec_value_display(v: SVal) -> Seq<char> {
    match v {
        SVal::Int(i) => spec_i64_str(i),
        SVal::Float(b) => crate::numeric::fp_display(b),
        SVal::Boolean(b) => if b {
            "true"@
        } else {
            "false"@
        },
        SVal::Str(s) => seq!['"'] + s + seq!['"'],
        SVal::Null => "null"@,
    }
}

/// Relies on `String::push`: appends exactly the one character.
#[verifier::external_body]
fn push_char(out: &mut String, c: char)
    ensures
        final(out)@ == old(out)@.push(c),
{
    out.push(c);
}

fn digit_char_of(d: u64) -> (c: char)
    requires
        d < 10,
    ensures
        c == digit_char(d as int),
{
    if d == 0 {
        '0'
    } else if d == 1 {
        '1'
    } else if d == 2 {
        '2'
    } else if d == 3 {
        '3'
    } else if d == 4 {
        '4'
    } else if d == 5 {
        '5'
    } else if d == 6 {
        '6'
    } else if d == 7 {
        '7'
    } else if d == 8 {
        '8'
    } else {
        '9'
    }
}

/// Appends the decimal rendering of a magnitude; see `dec_str`.
fn push_dec(out: &mut String, m: u64)
    ensures
        final(out)@ == old(out)@ + dec_str(m as int),
    decreases m,
{
    if m < 10 {
        push_char(out, digit_char_of(m));
        proof {
            assert(old(out)@.push(digit_char(m as int)) =~= old(out)@ + dec_str(m as int));
        }
    } else {
        push_dec(out, m / 10);
        push_char(out, digit_char_of(m % 10));
        proof {
            assert((old(out)@ + dec_str((m / 10) as int)).push(digit_char((m % 10) as int)) =~= old(
                out,
            )@ + dec_str(m as int));
        }
    }
}

/// The decimal rendering of a machine integer; see `spec_i64_str`.
pub fn i64_to_string(v: i64) -> (s: String)
    ensures
        s@ == spec_i64_str(v),
{
    let mut out = String::new();
    let mag: u64 = if v == i64::MIN {
        0x8000_0000_0000_0000
    } else if v < 0 {
        (-v) as u64
    } else {
        v as u64
    };
    if v < 0 {
        push_char(&mut out, '-');
    }
    push_dec(&mut out, mag);
    proof {
        if v < 0 {
            assert(out@ =~= seq!['-'] + dec_str(-(v as int)));
        } else {
            assert(out@ =~= dec_str(v as int));
        }
    }
    out
}

/// The decimal rendering of a machine size; see `dec_str`.
pub fn usize_to_string(v: usize) -> (s: String)
    ensures
        s@ == dec_str(v as int),
{
    let mut out = String::new();
    push_dec(&mut out, v as u64);
    proof {
        assert(Seq::<char>::empty() + dec_str(v as int) =~= dec_str(v as int));
    }
    out
}

impl Value {
    /// Renders the value for display; see `spec_value_display`.
    pub fn to_display_string(&self) -> (s: String)
        ensures
            s@ == spec_value_display(self@),
    {
        match self {
            Value::Int(i) => i64_to_string(*i),
            Value::Float(b) => crate::numeric::display_bits(*b),
            Value::Boolean(b) => {
                if *b {
                    String::from_str("true")
                } else {
                    String::from_str("false")
                }
            },
            Value::Str(v) => {
                let q = "\u{22}";
                let s = String::from_str(q).concat(v.as_str()).concat(q);
                proof {
                    reveal_strlit("\u{22}");
                    assert(s@ =~= seq!['"'] + v@ + seq!['"']);
                }
                s
            },
            Value::Null => String::from_str("null"),
        }
    }
}

fn incompatible_message() -> (s: String)
    ensures
        s@ == msg_incompatible(),
{
    String::from_str("Incompatible types for arithmetic")
}

fn modulo_zero_message() -> (s: String)
    ensures
        s@ == msg_modulo_zero(),
{
    String::from_str("Modulo by zero")
}

fn negate_message() -> (s: String)
    ensures
        s@ == msg_negate(),
{
    String::from_str("Cannot negate this value")
}

} // verus!
