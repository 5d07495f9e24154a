//! The evaluator: reduces a syntax tree to a value in a given environment.
//!
//! `spec_eval` is the mathematical semantics; `eval_tree` is the executable
//! evaluator, proved to return exactly what `spec_eval` denotes (the value on
//! success, the message on failure).

use vstd::prelude::*;
use vstd::string::StringExecFns;

use crate::ast::{AstNode, AstNodeValue, SNode, SNodeValue};
use crate::env::Environment;
use crate::errors::{EvalError, RuntimeError};
use crate::numeric::PI_BITS;
use crate::parse::{opt_tok_view, parse, spec_parse, PFault};
use crate::tokenize::{spec_tokenize, token_views, tokenize, LFault};
use crate::operatortype::Operator;
use crate::value::{
    msg_comparison, spec_add, spec_compare, spec_div, spec_int_div, spec_mul, spec_negate,
    spec_pow, spec_rem, spec_sub, spec_value_eq, SVal, Value,
};

verus! {

pub open spec fn msg_not_implemented() -> Seq<char> {
    "Not implemented"@
}

pub open spec fn msg_missing_operand() -> Seq<char> {
    "Operator expects at least one operand"@
}

/// One step of an arithmetic fold: how an operator combines the running
/// value with the next evaluated operand.
pub open spec fn spec_apply(op: Operator, l: SVal, r: SVal) -> Result<SVal, Seq<char>> {
    match op {
        Operator::Plus => Ok(spec_add(l, r)),
        Operator::Mul => Ok(spec_mul(l, r)),
        Operator::Minus => spec_sub(l, r),
        Operator::Div => spec_div(l, r),
        Operator::IntDiv => spec_int_div(l, r),
        Operator::Modulo => spec_rem(l, r),
        Operator::Power => spec_pow(l, r),
        _ => Err(msg_not_implemented()),
    }
}

/// Whether an ordering outcome `c` (negative, zero or positive) breaks the
/// chain of the comparison operator `op`.
pub open spec fn chain_fails(op: Operator, c: i64) -> bool {
    match op {
        Operator::Lt => c >= 0,
        Operator::Leq => c > 0,
        Operator::Gt => c <= 0,
        Operator::Geq => c < 0,
        _ => false,
    }
}

/// Left fold of an operator over the children of `n` from index `i`,
/// starting from the running value `acc`.
pub open spec fn spec_fold(
    n: SNode,
    i: int,
    acc: SVal,
    env: Map<Seq<char>, SVal>,
    op: Operator,
) -> Result<SVal, Seq<char>>
    decreases n, n.children.len() - i, 0int,
    when 0 <= i <= n.children.len()
{
    if i == n.children.len() {
        Ok(acc)
    } else {
        match spec_eval(n.children[i], env) {
            Err(m) => Err(m),
            Ok(v) => match spec_apply(op, acc, v) {
                Err(m) => Err(m),
                Ok(acc2) => spec_fold(n, i + 1, acc2, env, op),
            },
        }
    }
}

/// Chained equality: every operand from index `i` on must equal the first
/// operand's value `refv`.
pub open spec fn spec_eq_chain(
    n: SNode,
    i: int,
    refv: SVal,
    env: Map<Seq<char>, SVal>,
) -> Result<SVal, Seq<char>>
    decreases n, n.children.len() - i, 0int,
    when 0 <= i <= n.children.len()
{
    if i == n.children.len() {
        Ok(SVal::Boolean(true))
    } else {
        match spec_eval(n.children[i], env) {
            Err(m) => Err(m),
            Ok(v) => if !spec_value_eq(v, refv) {
                Ok(SVal::Boolean(false))
            } else {
                spec_eq_chain(n, i + 1, refv, env)
            },
        }
    }
}

/// Chained ordering: every adjacent pair of operand values must satisfy the
/// operator, walking from index `i` with the previous value `prev`.
pub open spec fn spec_chain(
    n: SNode,
    i: int,
    prev: SVal,
    env: Map<Seq<char>, SVal>,
    op: Operator,
) -> Result<SVal, Seq<char>>
    decreases n, n.children.len() - i, 0int,
    when 0 <= i <= n.children.len()
{
    if i == n.children.len() {
        Ok(SVal::Boolean(true))
    } else {
        match spec_eval(n.children[i], env) {
            Err(m) => Err(m),
            Ok(v) => match spec_compare(prev, v) {
                None => Err(msg_comparison(prev, v)),
                Some(c) => if chain_fails(op, c) {
                    Ok(SVal::Boolean(false))
                } else {
                    spec_chain(n, i + 1, v, env, op)
                },
            },
        }
    }
}

/// Evaluation of all children of `n` from index `i`, appended to `acc`.
pub open spec fn spec_collect(n: SNode, i: int, acc: Seq<SVal>, env: Map<Seq<char>, SVal>) -> Result<
    Seq<SVal>,
    Seq<char>,
>
    decreases n, n.children.len() - i, 0int,
    when 0 <= i <= n.children.len()
{
    if i == n.children.len() {
        Ok(acc)
    } else {
        match spec_eval(n.children[i], env) {
            Err(m) => Err(m),
            Ok(v) => spec_collect(n, i + 1, acc.push(v), env),
        }
    }
}

/// Pairwise distinctness of the evaluated operands, scanning the pairs
/// `(a, b)` in lexicographic order: a first-found equal pair (by value
/// equality, which never fails) yields false, so operands of differing
/// kinds count as distinct.
pub open spec fn spec_neq_from(vals: Seq<SVal>, a: int, b: int) -> SVal
    decreases vals.len() - a, vals.len() - b,
    when 0 <= a < b
{
    if a + 1 >= vals.len() {
        SVal::Boolean(true)
    } else if b >= vals.len() {
        spec_neq_from(vals, a + 1, a + 2)
    } else {
        if spec_value_eq(vals[a], vals[b]) {
            SVal::Boolean(false)
        } else {
            spec_neq_from(vals, a, b + 1)
        }
    }
}

/// The semantics of an operator node.
pub open spec fn spec_eval_op(n: SNode, op: Operator, env: Map<Seq<char>, SVal>) -> Result<
    SVal,
    Seq<char>,
>
    decreases n, n.children.len() + 1, 0int,
{
    match op {
        Operator::Plus => spec_fold(n, 0, SVal::Int(0), env, op),
        Operator::Mul => spec_fold(n, 0, SVal::Int(1), env, op),
        Operator::Minus | Operator::Div | Operator::IntDiv | Operator::Modulo
            | Operator::Power => {
            if n.children.len() == 0 {
                Err(msg_missing_operand())
            } else {
                match spec_eval(n.children[0], env) {
                    Err(m) => Err(m),
                    Ok(v) => if op == Operator::Minus && n.children.len() == 1 {
                        spec_negate(v)
                    } else {
                        spec_fold(n, 1, v, env, op)
                    },
                }
            }
        },
        Operator::Eq => {
            if n.children.len() == 0 {
                Err(msg_missing_operand())
            } else {
                match spec_eval(n.children[0], env) {
                    Err(m) => Err(m),
                    Ok(refv) => spec_eq_chain(n, 1, refv, env),
                }
            }
        },
        Operator::Lt | Operator::Leq | Operator::Gt | Operator::Geq => {
            if n.children.len() < 2 {
                Ok(SVal::Boolean(true))
            } else {
                match spec_eval(n.children[0], env) {
                    Err(m) => Err(m),
                    Ok(prev) => spec_chain(n, 1, prev, env, op),
                }
            }
        },
        Operator::Neq => match spec_collect(n, 0, Seq::empty(), env) {
            Err(m) => Err(m),
            Ok(vals) => Ok(spec_neq_from(vals, 0, 1)),
        },
    }
}

/// The semantics of a node: a literal denotes its value; an operator node
/// reduces its children; a bound identifier with no operands denotes its
/// bound value (the substitution step replaces the node by the value);
/// everything else — an identifier applied to operands, an unbound
/// identifier, a quote, the root itself — is not implemented and fails.
pub open spec fn spec_eval(n: SNode, env: Map<Seq<char>, SVal>) -> Result<SVal, Seq<char>>
    decreases n, n.children.len() + 2, 0int,
{
    match n.value {
        SNodeValue::Literal(v) => Ok(v),
        SNodeValue::Operator(op) => spec_eval_op(n, op, env),
        SNodeValue::Identifier(name) => if env.contains_key(name) && n.children.len() == 0 {
            Ok(env[name])
        } else {
            Err(msg_not_implemented())
        },
        SNodeValue::Quote => Err(msg_not_implemented()),
        SNodeValue::Root => Err(msg_not_implemented()),
    }
}

fn not_implemented_message() -> (s: String)
    ensures
        s@ == msg_not_implemented(),
{
    String::from_str("Not implemented")
}

fn missing_operand_message() -> (s: String)
    ensures
        s@ == msg_missing_operand(),
{
    String::from_str("Operator expects at least one operand")
}

/// One arithmetic step; see `spec_apply`.
fn apply_op(op: Operator, l: Value, r: Value) -> (res: Result<Value, RuntimeError>)
    ensures
        match res {
            Ok(v) => spec_apply(op, l@, r@) == Ok::<SVal, Seq<char>>(v@),
            Err(e) => spec_apply(op, l@, r@) == Err::<SVal, Seq<char>>(e.message@),
        },
{
    match op {
        Operator::Plus => Ok(l.add(r)),
        Operator::Mul => Ok(l.mul(r)),
        Operator::Minus => l.sub(r),
        Operator::Div => l.div(r),
        Operator::IntDiv => l.int_div(r),
        Operator::Modulo => l.modulo(r),
        Operator::Power => l.pow(r),
        _ => Err(RuntimeError::new(not_implemented_message())),
    }
}

/// Folds an arithmetic operator over the children of `node` from `start`,
/// with running value `acc`; see `spec_fold`.
fn eval_fold(node: &AstNode, env: &Environment, start: usize, acc: Value, op: Operator) -> (res:
    Result<Value, RuntimeError>)
    requires
        0 <= start <= node@.children.len(),
    ensures
        match res {
            Ok(v) => spec_fold(node@, start as int, acc@, env@, op) == Ok::<SVal, Seq<char>>(v@),
            Err(e) => spec_fold(node@, start as int, acc@, env@, op) == Err::<SVal, Seq<char>>(
                e.message@,
            ),
        },
    decreases *node, 0int,
{
    let mut i: usize = start;
    let mut cur = acc;
    while i < node.children.len()
        invariant
            start <= i <= node.children@.len(),
            spec_fold(node@, i as int, cur@, env@, op) == spec_fold(
                node@,
                start as int,
                acc@,
                env@,
                op,
            ),
        decreases node.children@.len() - i,
    {
        proof {
            assert(node@.children[i as int] == node.children@[i as int]@);
        }
        let v = match eval_tree(&node.children[i], env) {
            Ok(v) => v,
            Err(e) => {
                return Err(e);
            },
        };
        let acc2 = match apply_op(op, cur, v) {
            Ok(a) => a,
            Err(e) => {
                return Err(e);
            },
        };
        cur = acc2;
        i = i + 1;
    }
    Ok(cur)
}

/// Evaluates a node in an environment; see `spec_eval`.
pub fn eval_tree(node: &AstNode, env: &Environment) -> (res: Result<Value, RuntimeError>)
    ensures
        match res {
            Ok(v) => spec_eval(node@, env@) == Ok::<SVal, Seq<char>>(v@),
            Err(e) => spec_eval(node@, env@) == Err::<SVal, Seq<char>>(e.message@),
        },
    decreases *node, 4int,
{
    match &node.value {
        AstNodeValue::Literal(v) => Ok(v.clone()),
        AstNodeValue::Operator(op) => {
            let o = *op;
            eval_operator(node, &o, env)
        },
        AstNodeValue::Identifier(name) => {
            if node.children.len() != 0 {
                return Err(RuntimeError::new(not_implemented_message()));
            }
            match env.get_var(name) {
                Some(v) => Ok(v.clone()),
                None => Err(RuntimeError::new(not_implemented_message())),
            }
        },
        AstNodeValue::Quote => Err(RuntimeError::new(not_implemented_message())),
        AstNodeValue::Root => Err(RuntimeError::new(not_implemented_message())),
    }
}

/// Dispatches an operator node to its reduction; see `spec_eval_op`.
pub fn eval_operator(node: &AstNode, op: &Operator, env: &Environment) -> (res: Result<
    Value,
    RuntimeError,
>)
    ensures
        match res {
            Ok(v) => spec_eval_op(node@, *op, env@) == Ok::<SVal, Seq<char>>(v@),
            Err(e) => spec_eval_op(node@, *op, env@) == Err::<SVal, Seq<char>>(e.message@),
        },
    decreases *node, 3int,
{
    match *op {
        Operator::Plus => eval_plus(node, env),
        Operator::Minus => eval_minus(node, env),
        Operator::Mul => eval_mul(node, env),
        Operator::Modulo => eval_modulo(node, env),
        Operator::Div => eval_div(node, env),
        Operator::IntDiv => eval_intdiv(node, env),
        Operator::Power => eval_pow(node, env),
        Operator::Eq => eval_eq(node, env),
        Operator::Lt => eval_lt(node, env),
        Operator::Leq => eval_leq(node, env),
        Operator::Gt => eval_gt(node, env),
        Operator::Geq => eval_geq(node, env),
        Operator::Neq => eval_neq(node, env),
    }
}

/// The first operand's value, for the operators that need one.
fn eval_first(node: &AstNode, env: &Environment) -> (res: Result<Value, RuntimeError>)
    requires
        node@.children.len() > 0,
    ensures
        match res {
            Ok(v) => spec_eval(node@.children[0], env@) == Ok::<SVal, Seq<char>>(v@),
            Err(e) => spec_eval(node@.children[0], env@) == Err::<SVal, Seq<char>>(e.message@),
        },
    decreases *node, 0int,
{
    proof {
        assert(node@.children[0] == node.children@[0]@);
    }
    eval_tree(&node.children[0], env)
}

fn eval_plus(node: &AstNode, env: &Environment) -> (res: Result<Value, RuntimeError>)
    ensures
        match res {
            Ok(v) => spec_eval_op(node@, Operator::Plus, env@) == Ok::<SVal, Seq<char>>(v@),
            Err(e) => spec_eval_op(node@, Operator::Plus, env@) == Err::<SVal, Seq<char>>(
                e.message@,
            ),
        },
    decreases *node, 2int,
{
    eval_fold(node, env, 0, Value::Int(0), Operator::Plus)
}

fn eval_mul(node: &AstNode, env: &Environment) -> (res: Result<Value, RuntimeError>)
    ensures
        match res {
            Ok(v) => spec_eval_op(node@, Operator::Mul, env@) == Ok::<SVal, Seq<char>>(v@),
            Err(e) => spec_eval_op(node@, Operator::Mul, env@) == Err::<SVal, Seq<char>>(
                e.message@,
            ),
        },
    decreases *node, 2int,
{
    eval_fold(node, env, 0, Value::Int(1), Operator::Mul)
}

/// Minus, division, integer division, modulo and power all start from their
/// first operand; a single-operand minus negates.
fn eval_first_fold(node: &AstNode, env: &Environment, op: Operator) -> (res: Result<
    Value,
    RuntimeError,
>)
    requires
        op == Operator::Minus || op == Operator::Div || op == Operator::IntDiv || op
            == Operator::Modulo || op == Operator::Power,
    ensures
        match res {
            Ok(v) => spec_eval_op(node@, op, env@) == Ok::<SVal, Seq<char>>(v@),
            Err(e) => spec_eval_op(node@, op, env@) == Err::<SVal, Seq<char>>(e.message@),
        },
    decreases *node, 1int,
{
    if node.children.len() == 0 {
        return Err(RuntimeError::new(missing_operand_message()));
    }
    let first = match eval_first(node, env) {
        Ok(v) => v,
        Err(e) => {
            return Err(e);
        },
    };
    if op == Operator::Minus && node.children.len() == 1 {
        return first.negate();
    }
    eval_fold(node, env, 1, first, op)
}

fn eval_minus(node: &AstNode, env: &Environment) -> (res: Result<Value, RuntimeError>)
    ensures
        match res {
            Ok(v) => spec_eval_op(node@, Operator::Minus, env@) == Ok::<SVal, Seq<char>>(v@),
            Err(e) => spec_eval_op(node@, Operator::Minus, env@) == Err::<SVal, Seq<char>>(
                e.message@,
            ),
        },
    decreases *node, 2int,
{
    eval_first_fold(node, env, Operator::Minus)
}

fn eval_modulo(node: &AstNode, env: &Environment) -> (res: Result<Value, RuntimeError>)
    ensures
        match res {
            Ok(v) => spec_eval_op(node@, Operator::Modulo, env@) == Ok::<SVal, Seq<char>>(v@),
            Err(e) => spec_eval_op(node@, Operator::Modulo, env@) == Err::<SVal, Seq<char>>(
                e.message@,
            ),
        },
    decreases *node, 2int,
{
    eval_first_fold(node, env, Operator::Modulo)
}

fn eval_div(node: &AstNode, env: &Environment) -> (res: Result<Value, RuntimeError>)
    ensures
        match res {
            Ok(v) => spec_eval_op(node@, Operator::Div, env@) == Ok::<SVal, Seq<char>>(v@),
            Err(e) => spec_eval_op(node@, Operator::Div, env@) == Err::<SVal, Seq<char>>(
                e.message@,
            ),
        },
    decreases *node, 2int,
{
    eval_first_fold(node, env, Operator::Div)
}

fn eval_intdiv(node: &AstNode, env: &Environment) -> (res: Result<Value, RuntimeError>)
    ensures
        match res {
            Ok(v) => spec_eval_op(node@, Operator::IntDiv, env@) == Ok::<SVal, Seq<char>>(v@),
            Err(e) => spec_eval_op(node@, Operator::IntDiv, env@) == Err::<SVal, Seq<char>>(
                e.message@,
            ),
        },
    decreases *node, 2int,
{
    eval_first_fold(node, env, Operator::IntDiv)
}

fn eval_pow(node: &AstNode, env: &Environment) -> (res: Result<Value, RuntimeError>)
    ensures
        match res {
            Ok(v) => spec_eval_op(node@, Operator::Power, env@) == Ok::<SVal, Seq<char>>(v@),
            Err(e) => spec_eval_op(node@, Operator::Power, env@) == Err::<SVal, Seq<char>>(
                e.message@,
            ),
        },
    decreases *node, 2int,
{
    eval_first_fold(node, env, Operator::Power)
}

fn eval_eq(node: &AstNode, env: &Environment) -> (res: Result<Value, RuntimeError>)
    ensures
        match res {
            Ok(v) => spec_eval_op(node@, Operator::Eq, env@) == Ok::<SVal, Seq<char>>(v@),
            Err(e) => spec_eval_op(node@, Operator::Eq, env@) == Err::<SVal, Seq<char>>(
                e.message@,
            ),
        },
    decreases *node, 2int,
{
    if node.children.len() == 0 {
        return Err(RuntimeError::new(missing_operand_message()));
    }
    let refv = match eval_first(node, env) {
        Ok(v) => v,
        Err(e) => {
            return Err(e);
        },
    };
    let mut i: usize = 1;
    while i < node.children.len()
        invariant
            1 <= i <= node.children@.len(),
            node@.children.len() > 0,
            spec_eval(node@.children[0], env@) == Ok::<SVal, Seq<char>>(refv@),
            spec_eq_chain(node@, i as int, refv@, env@) == spec_eq_chain(node@, 1, refv@, env@),
        decreases node.children@.len() - i,
    {
        proof {
            assert(node@.children[i as int] == node.children@[i as int]@);
        }
        let v = match eval_tree(&node.children[i], env) {
            Ok(v) => v,
            Err(e) => {
                return Err(e);
            },
        };
        if v.ne(&refv) {
            return Ok(Value::Boolean(false));
        }
        i = i + 1;
    }
    Ok(Value::Boolean(true))
}

/// A chained comparison; see `spec_chain`.
fn eval_chain(node: &AstNode, env: &Environment, op: Operator) -> (res: Result<
    Value,
    RuntimeError,
>)
    requires
        op == Operator::Lt || op == Operator::Leq || op == Operator::Gt || op == Operator::Geq,
    ensures
        match res {
            Ok(v) => spec_eval_op(node@, op, env@) == Ok::<SVal, Seq<char>>(v@),
            Err(e) => spec_eval_op(node@, op, env@) == Err::<SVal, Seq<char>>(e.message@),
        },
    decreases *node, 1int,
{
    if node.children.len() < 2 {
        return Ok(Value::Boolean(true));
    }
    let mut prev = match eval_first(node, env) {
        Ok(v) => v,
        Err(e) => {
            return Err(e);
        },
    };
    let ghost prev0 = prev@;
    let mut i: usize = 1;
    while i < node.children.len()
        invariant
            1 <= i <= node.children@.len(),
            node@.children.len() >= 2,
            spec_eval(node@.children[0], env@) == Ok::<SVal, Seq<char>>(prev0),
            spec_chain(node@, i as int, prev@, env@, op) == spec_chain(node@, 1, prev0, env@, op),
            op == Operator::Lt || op == Operator::Leq || op == Operator::Gt || op
                == Operator::Geq,
        decreases node.children@.len() - i,
    {
        proof {
            assert(node@.children[i as int] == node.children@[i as int]@);
        }
        let v = match eval_tree(&node.children[i], env) {
            Ok(v) => v,
            Err(e) => {
                return Err(e);
            },
        };
        let c = match prev.compare_to(&v) {
            Ok(c) => c,
            Err(e) => {
                return Err(e);
            },
        };
        let fails: bool = match op {
            Operator::Lt => c >= 0,
            Operator::Leq => c > 0,
            Operator::Gt => c <= 0,
            Operator::Geq => c < 0,
            _ => false,
        };
        if fails {
            return Ok(Value::Boolean(false));
        }
        prev = v;
        i = i + 1;
    }
    Ok(Value::Boolean(true))
}

fn eval_lt(node: &AstNode, env: &Environment) -> (res: Result<Value, RuntimeError>)
    ensures
        match res {
            Ok(v) => spec_eval_op(node@, Operator::Lt, env@) == Ok::<SVal, Seq<char>>(v@),
            Err(e) => spec_eval_op(node@, Operator::Lt, env@) == Err::<SVal, Seq<char>>(
                e.message@,
            ),
        },
    decreases *node, 2int,
{
    eval_chain(node, env, Operator::Lt)
}

fn eval_leq(node: &AstNode, env: &Environment) -> (res: Result<Value, RuntimeError>)
    ensures
        match res {
            Ok(v) => spec_eval_op(node@, Operator::Leq, env@) == Ok::<SVal, Seq<char>>(v@),
            Err(e) => spec_eval_op(node@, Operator::Leq, env@) == Err::<SVal, Seq<char>>(
                e.message@,
            ),
        },
    decreases *node, 2int,
{
    eval_chain(node, env, Operator::Leq)
}

fn eval_gt(node: &AstNode, env: &Environment) -> (res: Result<Value, RuntimeError>)
    ensures
        match res {
            Ok(v) => spec_eval_op(node@, Operator::Gt, env@) == Ok::<SVal, Seq<char>>(v@),
            Err(e) => spec_eval_op(node@, Operator::Gt, env@) == Err::<SVal, Seq<char>>(
                e.message@,
            ),
        },
    decreases *node, 2int,
{
    eval_chain(node, env, Operator::Gt)
}

fn eval_geq(node: &AstNode, env: &Environment) -> (res: Result<Value, RuntimeError>)
    ensures
        match res {
            Ok(v) => spec_eval_op(node@, Operator::Geq, env@) == Ok::<SVal, Seq<char>>(v@),
            Err(e) => spec_eval_op(node@, Operator::Geq, env@) == Err::<SVal, Seq<char>>(
                e.message@,
            ),
        },
    decreases *node, 2int,
{
    eval_chain(node, env, Operator::Geq)
}

fn eval_neq(node: &AstNode, env: &Environment) -> (res: Result<Value, RuntimeError>)
    ensures
        match res {
            Ok(v) => spec_eval_op(node@, Operator::Neq, env@) == Ok::<SVal, Seq<char>>(v@),
            Err(e) => spec_eval_op(node@, Operator::Neq, env@) == Err::<SVal, Seq<char>>(
                e.message@,
            ),
        },
    decreases *node, 2int,
{
    let mut vals: Vec<Value> = Vec::new();
    let mut i: usize = 0;
    proof {
        assert(vals@.map_values(|x: Value| x@) =~= Seq::<SVal>::empty());
    }
    while i < node.children.len()
        invariant
            0 <= i <= node.children@.len(),
            vals@.len() == i,
            spec_collect(node@, i as int, vals@.map_values(|x: Value| x@), env@) == spec_collect(
                node@,
                0,
                Seq::empty(),
                env@,
            ),
        decreases node.children@.len() - i,
    {
        proof {
            assert(node@.children[i as int] == node.children@[i as int]@);
        }
        let v = match eval_tree(&node.children[i], env) {
            Ok(v) => v,
            Err(e) => {
                return Err(e);
            },
        };
        let ghost before = vals@;
        vals.push(v);
        proof {
            assert(vals@.map_values(|x: Value| x@) =~= before.map_values(|x: Value| x@).push(v@));
        }
        i = i + 1;
    }
    let ghost gvals = vals@.map_values(|x: Value| x@);
    // Scan every pairwise combination in lexicographic order.
    if vals.len() < 2 {
        return Ok(Value::Boolean(true));
    }
    let mut a: usize = 0;
    let mut b: usize = 1;
    while a + 1 < vals.len()
        invariant
            0 <= a < b <= gvals.len(),
            gvals == vals@.map_values(|x: Value| x@),
            gvals.len() == vals@.len(),
            spec_collect(node@, 0, Seq::empty(), env@) == Ok::<Seq<SVal>, Seq<char>>(gvals),
            spec_neq_from(gvals, a as int, b as int) == spec_neq_from(gvals, 0, 1),
        decreases gvals.len() - a, gvals.len() - b,
    {
        if b >= vals.len() {
            a = a + 1;
            b = a + 1;
        } else {
            if vals[a].eq(&vals[b]) {
                return Ok(Value::Boolean(false));
            }
            b = b + 1;
        }
    }
    Ok(Value::Boolean(true))
}

// ------------------------------------------------------------------
// The whole pipeline: text to value.
// ------------------------------------------------------------------

pub open spec fn msg_no_expression() -> Seq<char> {
    "Nothing to evaluate"@
}

/// A fault of any stage of the pipeline.
pub ghost enum SFault {
    Lex(LFault),
    Parse(PFault),
    Run(Seq<char>),
}

/// The value the whole pipeline denotes for an input string in an
/// environment: the input is lexed and parsed, and the first top-level form
/// is evaluated; the first fault of any stage wins, and an input with no
/// top-level form fails.
pub open spec fn spec_eval_str(s: Seq<char>, env: Map<Seq<char>, SVal>) -> Result<SVal, SFault> {
    match spec_tokenize(s) {
        Err(f) => Err(SFault::Lex(f)),
        Ok(ts) => match spec_parse(ts) {
            Err(f) => Err(SFault::Parse(f)),
            Ok(root) => if root.children.len() == 0 {
                Err(SFault::Run(msg_no_expression()))
            } else {
                match spec_eval(root.children[0], env) {
                    Ok(v) => Ok(v),
                    Err(m) => Err(SFault::Run(m)),
                }
            },
        },
    }
}

/// Whether an executable fault carries exactly the model fault.
pub open spec fn fault_matches(e: EvalError, f: SFault) -> bool {
    match (e, f) {
        (EvalError::Tokenizing(te), SFault::Lex(lf)) => te.line_number as int == lf.line
            && te.token_index as int == lf.token_index && te.error_index as int == lf.error_index
            && te.message@ == lf.msg,
        (EvalError::Parsing(pe), SFault::Parse(pf)) => opt_tok_view(pe.token) == pf.token
            && pe.message@ == pf.msg,
        (EvalError::Runtime(re), SFault::Run(m)) => re.message@ == m,
        _ => false,
    }
}

fn no_expression_message() -> (s: String)
    ensures
        s@ == msg_no_expression(),
{
    String::from_str("Nothing to evaluate")
}

/// Evaluates one expression string in the given environment; see
/// `spec_eval_str`.  Evaluation reads the environment and leaves it as it
/// was.
pub fn eval_with_env(input: &str, env: &mut Environment) -> (r: Result<Value, EvalError>)
    ensures
        *final(env) == *old(env),
        match r {
            Ok(v) => spec_eval_str(input@, old(env)@) == Ok::<SVal, SFault>(v@),
            Err(e) => spec_eval_str(input@, old(env)@) matches Err(f) && fault_matches(e, f),
        },
{
    let tokens = match tokenize(input) {
        Ok(tokens) => tokens,
        Err(e) => {
            return Err(EvalError::Tokenizing(e));
        },
    };
    let ghost toks = token_views(tokens@);
    let root = match parse(tokens) {
        Ok(root) => root,
        Err(e) => {
            return Err(EvalError::Parsing(e));
        },
    };
    if root.children.len() == 0 {
        return Err(EvalError::Runtime(RuntimeError::new(no_expression_message())));
    }
    proof {
        assert(root@.children[0] == root.children@[0]@);
    }
    match eval_tree(&root.children[0], env) {
        Ok(v) => Ok(v),
        Err(e) => Err(EvalError::Runtime(e)),
    }
}

/// The built-in session environment: `pi` bound to `3.14`.
pub open spec fn builtin_env() -> Map<Seq<char>, SVal> {
    Map::<Seq<char>, SVal>::empty().insert("pi"@, SVal::Float(PI_BITS))
}

/// Evaluates one expression string in a fresh session environment; see
/// `spec_eval_str` and `builtin_env`.
pub fn eval(input: &str) -> (r: Result<Value, EvalError>)
    ensures
        match r {
            Ok(v) => spec_eval_str(input@, builtin_env()) == Ok::<SVal, SFault>(v@),
            Err(e) => spec_eval_str(input@, builtin_env()) matches Err(f) && fault_matches(e, f),
        },
{
    let mut env = Environment::new();
    let name = String::from_str("pi");
    env.set_var(&name, Value::Float(PI_BITS));
    eval_with_env(input, &mut env)
}

// ------------------------------------------------------------------
// The round-trip law for integer literals.
// ------------------------------------------------------------------

/// A sequence that has no newline keeps scanning to its end.
proof fn lemma_nl_pos_none(s: Seq<char>, i: int)
    requires
        0 <= i <= s.len(),
        forall|k: int| i <= k < s.len() ==> s[k] != '\n',
    ensures
        crate::tokenize::nl_pos(s, i) == s.len(),
    decreases s.len() - i,
{
    if i < s.len() {
        lemma_nl_pos_none(s, i + 1);
    }
}

/// A run of decimal digits ended by a character that is neither a digit nor
/// a dot scans to exactly the end of the run.
proof fn lemma_scan_digit_region(s: Seq<char>, p: int, e: int)
    requires
        0 <= p <= e <= s.len(),
        forall|k: int| p <= k < e ==> crate::value::is_digit_char(#[trigger] s[k]),
        e == s.len() || (!crate::value::spec_valid_digit(crate::value::NumBase::Dec, s[e]) && s[e]
            != '.'),
    ensures
        crate::tokenize::scan_num(s, p, crate::value::NumBase::Dec, false) == Ok::<
            (int, bool),
            (int, Seq<char>),
        >((e, false)),
    decreases e - p,
{
    if p < e {
        lemma_scan_digit_region(s, p + 1, e);
    }
}

/// Whether every character of a sequence is a decimal digit.
pub open spec fn all_digit_chars(s: Seq<char>) -> bool {
    forall|k: int| 0 <= k < s.len() ==> crate::value::is_digit_char(#[trigger] s[k])
}

/// Whether `lit` is a decimal integer literal denoting `v`: an optional
/// minus sign, then at least one decimal digit, whose magnitude stays within
/// the signed machine range.
pub open spec fn spec_int_literal(lit: Seq<char>, v: i64) -> bool {
    let neg = lit.len() > 0 && lit[0] == '-';
    let ds = if neg {
        lit.skip(1)
    } else {
        lit
    };
    let scanned = crate::value::spec_scan_digits(ds, 0, 0, 10, 0x7FFF_FFFF_FFFF_FFFF);
    &&& lit.len() > 0
    &&& ds.len() > 0
    &&& all_digit_chars(ds)
    &&& scanned is Ok
    &&& v as int == (if neg {
        -scanned->Ok_0
    } else {
        scanned->Ok_0
    })
}

/// The round-trip law: for every decimal integer literal within the
/// supported range, lexing, parsing and evaluating the parenthesized literal
/// gives back exactly the integer it denotes, in any environment.
#[verifier::rlimit(100)]
#[verifier::spinoff_prover]
pub proof fn lemma_int_literal_round_trip(lit: Seq<char>, v: i64, env: Map<Seq<char>, SVal>)
    requires
        spec_int_literal(lit, v),
    ensures
        spec_eval_str(seq!['('] + lit + seq![')'], env) == Ok::<SVal, SFault>(SVal::Int(v)),
{
    let s = seq!['('] + lit + seq![')'];
    let n = s.len() as int;
    let neg = lit.len() > 0 && lit[0] == '-';
    let ds = if neg {
        lit.skip(1)
    } else {
        lit
    };
    assert(all_digit_chars(ds));
    assert(forall|k: int| 0 <= k < ds.len() ==> crate::value::is_digit_char(#[trigger] ds[k]));
    let mag = crate::value::spec_scan_digits(ds, 0, 0, 10, 0x7FFF_FFFF_FFFF_FFFF)->Ok_0;
    assert(s[0] == '(');
    assert(s[n - 1] == ')');
    assert(forall|k: int| 1 <= k < n - 1 ==> s[k] == lit[k - 1]);

    // --- The lexer: one line, three tokens.
    assert forall|k: int| 0 <= k < n implies s[k] != '\n' by {
        if 1 <= k < n - 1 {
            assert(s[k] == lit[k - 1]);
            if neg && k == 1 {
                assert(s[k] == '-');
            } else {
                let dk = if neg {
                    k - 2
                } else {
                    k - 1
                };
                assert(0 <= dk < ds.len());
                assert(ds[dk] == lit[k - 1]);
                assert(crate::value::is_digit_char(ds[dk]));
            }
        }
    }
    lemma_nl_pos_none(s, 0);
    assert(crate::tokenize::strip_cr(s.take(n)) =~= s);

    // The number token at position 1.
    let dstart: int = if neg {
        2
    } else {
        1
    };
    assert(s[dstart] == ds[0]);
    assert(crate::value::is_digit_char(s[dstart]));
    let base = crate::tokenize::base_at(s, dstart);
    assert(base == crate::value::NumBase::Dec) by {
        if dstart + 1 < n && s[dstart] == '0' {
            if dstart + 1 < n - 1 {
                assert(crate::value::is_digit_char(ds[dstart + 1 - dstart]));
            } else {
                assert(s[dstart + 1] == ')');
            }
        }
    }
    let e = n - 1;
    assert forall|k: int| dstart + 1 <= k < e implies crate::value::is_digit_char(
        #[trigger] s[k],
    ) by {
        assert(s[k] == lit[k - 1]);
        assert(0 <= k - dstart < ds.len());
        assert(ds[k - dstart] == lit[k - 1]);
        assert(crate::value::is_digit_char(ds[k - dstart]));
    }
    lemma_scan_digit_region(s, dstart + 1, e);
    let digits = s.subrange(dstart, e);
    assert(digits =~= ds);
    // Parsing the digits gives the magnitude.
    assert(crate::value::spec_parse_int(crate::value::NumBase::Dec, ds) == Ok::<
        i64,
        crate::value::IntParseError,
    >(mag as i64)) by {
        assert(ds[0] != '-' && ds[0] != '+');
        crate::value::lemma_scan_digits_range(ds, 0, 0, 10, 0x7FFF_FFFF_FFFF_FFFF);
    }
    let sign: int = if neg {
        -1
    } else {
        1
    };
    crate::value::lemma_scan_digits_range(ds, 0, 0, 10, 0x7FFF_FFFF_FFFF_FFFF);
    assert((sign * (mag as i64)) as i64 == v) by {
        if neg {
            assert(sign * (mag as i64) == -mag) by (nonlinear_arith)
                requires
                    sign == -1,
                    mag == mag as i64,
            ;
        } else {
            assert(sign * (mag as i64) == mag) by (nonlinear_arith)
                requires
                    sign == 1,
                    mag == mag as i64,
            ;
        }
    }
    let ntok = crate::tokenize::STok {
        typ: crate::token::TokenType::Number,
        line: 0,
        col: 1,
        content: Some(crate::tokenize::SContent::Int(v)),
    };
    assert(crate::tokenize::spec_number_token(s, 0, 1) == Ok::<
        (crate::tokenize::STok, int),
        crate::tokenize::LFault,
    >((ntok, e)));

    // The three tokens of the line.
    reveal_with_fuel(crate::tokenize::spec_lex_line, 4);
    reveal_with_fuel(crate::tokenize::spec_lex_cons, 4);
    let ltok = crate::tokenize::bare_tok(crate::token::TokenType::Lparen, 0, 0);
    let rtok = crate::tokenize::bare_tok(crate::token::TokenType::Rparen, 0, n - 1);
    assert(crate::tokenize::spec_lex_line(s, 0, n) == Ok::<
        Seq<crate::tokenize::STok>,
        (Seq<crate::tokenize::STok>, crate::tokenize::LFault),
    >(Seq::empty()));
    assert(crate::tokenize::spec_lex_line(s, 0, n - 1) == Ok::<
        Seq<crate::tokenize::STok>,
        (Seq<crate::tokenize::STok>, crate::tokenize::LFault),
    >(seq![rtok])) by {
        assert(seq![rtok] + Seq::<crate::tokenize::STok>::empty() =~= seq![rtok]);
    }
    assert(crate::tokenize::clamp_idx(e, 2, n) == e);
    assert(!crate::tokenize::is_space_char('('));
    assert(crate::tokenize::spec_lex_line(s, 0, 1) == Ok::<
        Seq<crate::tokenize::STok>,
        (Seq<crate::tokenize::STok>, crate::tokenize::LFault),
    >(seq![ntok, rtok])) by {
        assert(crate::value::is_digit_char(s[1]) || s[1] == '-');
        if s[1] == '-' {
            assert(s[2] == ds[0]);
        }
        assert(seq![ntok] + seq![rtok] =~= seq![ntok, rtok]);
    }
    let toks = seq![ltok, ntok, rtok];
    assert(crate::tokenize::spec_lex_line(s, 0, 0) == Ok::<
        Seq<crate::tokenize::STok>,
        (Seq<crate::tokenize::STok>, crate::tokenize::LFault),
    >(toks)) by {
        assert(seq![ltok] + seq![ntok, rtok] =~= toks);
    }
    assert(crate::tokenize::spec_tokenize(s) == Ok::<
        Seq<crate::tokenize::STok>,
        crate::tokenize::LFault,
    >(toks)) by {
        assert(s.take(n) =~= s);
        assert(crate::tokenize::spec_tokenize_from(Seq::<char>::empty(), 1) == Ok::<
            Seq<crate::tokenize::STok>,
            crate::tokenize::LFault,
        >(Seq::empty()));
        assert(toks + Seq::<crate::tokenize::STok>::empty() =~= toks);
    }

    // --- The parser: a root with one literal child.
    let litnode = SNode { value: SNodeValue::Literal(SVal::Int(v)), children: Seq::empty() };
    assert(spec_parse(toks) == Ok::<SNode, PFault>(
        SNode { value: SNodeValue::Root, children: seq![litnode] },
    )) by {
        reveal_with_fuel(crate::parse::spec_forms, 6);
        assert(toks[1].content is Some);
        assert(!(toks[1].content matches Some(crate::tokenize::SContent::Operator(op))));
        assert(crate::parse::spec_forms(toks, 3) == Ok::<(Seq<SNode>, int), PFault>(
            (Seq::empty(), 3),
        ));
        assert(crate::parse::spec_forms(toks, 2) == Ok::<(Seq<SNode>, int), PFault>(
            (Seq::empty(), 3),
        ));
        assert(crate::parse::spec_literal_node(toks[1]) == Ok::<SNode, PFault>(litnode));
        assert(crate::parse::spec_forms(toks, 1) == Ok::<(Seq<SNode>, int), PFault>(
            (seq![litnode] + Seq::empty(), 3),
        ));
        assert(crate::parse::clamp_pos(3, 1, 3) == 3);
        assert(seq![litnode] + Seq::<SNode>::empty() =~= seq![litnode]);
        assert(crate::parse::spec_forms(toks, 0) == Ok::<(Seq<SNode>, int), PFault>(
            (seq![litnode] + Seq::empty(), 3),
        ));
    }

    // --- The evaluator: the literal's value.
    assert(spec_eval(litnode, env) == Ok::<SVal, Seq<char>>(SVal::Int(v)));
}

} // verus!
