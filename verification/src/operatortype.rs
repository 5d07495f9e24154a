use vstd::prelude::*;

verus! {

/// The operators of the expression language.  `Div` is floating division
/// (`/`), `IntDiv` is truncating division (`//`), `Modulo` takes the sign of
/// the divisor (`%`), and `Power` is floating exponentiation (`^`).
#[derive(Debug, Clone, Copy, PartialEq, Eq, Structural)]
pub enum Operator {
    Plus,
    Minus,
    Div,
    IntDiv,
    Mul,
    Modulo,
    Power,
    Eq,
    Neq,
    Geq,
    Leq,
    Lt,
    Gt,
}

} // verus!
