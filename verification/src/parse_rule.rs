//! What the compiler does with a token at the start and in the middle of an
//! expression.
use vstd::prelude::*;
use crate::precedence::Precedence;

verus! {

/// The routines of the compiler that a rule can name.
#[derive(Clone, Copy, Debug, PartialEq, Eq, Structural)]
pub enum Handler {
    Grouping,
    Unary,
    Binary,
    String,
    Number,
    Literal,
    Variable,
}

/// The rule of a token kind: the routine that compiles an expression starting
/// with the token, the routine that compiles the rest of an expression whose
/// left operand is done when the token is met, and how tightly the token
/// binds as an infix operator.
#[derive(Clone, Copy, Debug, PartialEq, Eq, Structural)]
pub struct ParseRule {
    pub prefix: Option<Handler>,
    pub infix: Option<Handler>,
    pub precedence: Precedence,
}

} // verus!
