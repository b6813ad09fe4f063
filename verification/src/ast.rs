//! The abstract syntax tree of an expression and its evaluation semantics:
//! left-to-right, precedence as parsed, truncating integer division.

use vstd::prelude::*;
use crate::token::BinOp;

verus! {

/// A node of the abstract syntax tree: a literal leaf or a binary
/// operation whose operands are owned subtrees.
#[derive(Debug, PartialEq)]
pub enum AstNode {
    Number(i32),
    BinaryOp(Box<AstNode>, BinOp, Box<AstNode>),
}

/// Truncating integer division (rounding towards zero), the semantics of
/// the target machine's signed divide, defined for a non-zero divisor.
pub open spec fn trunc_div(a: int, b: int) -> int
    recommends
        b != 0,
{
    if a == 0 {
        0
    } else if a > 0 && b > 0 {
        a / b
    } else if a < 0 && b < 0 {
        (a * -1) / (b * -1)
    } else if a < 0 {
        ((a * -1) / b) * -1
    } else {
        (a / (b * -1)) * -1
    }
}

/// The result of one binary operation on mathematical integers; division
/// by zero has no result.
pub open spec fn apply_op(op: BinOp, a: int, b: int) -> Option<int> {
    match op {
        BinOp::Add => Some(a + b),
        BinOp::Sub => Some(a - b),
        BinOp::Mul => Some(a * b),
        BinOp::Div => if b == 0 {
            None
        } else {
            Some(trunc_div(a, b))
        },
    }
}

/// Direct evaluation of a tree: operands left to right, children before
/// the parent.  `None` exactly when some division by zero occurs.
pub open spec fn eval_ast(a: AstNode) -> Option<int>
    decreases a,
{
    match a {
        AstNode::Number(v) => Some(v as int),
        AstNode::BinaryOp(l, op, r) => match (eval_ast(*l), eval_ast(*r)) {
            (Some(x), Some(y)) => apply_op(op, x, y),
            _ => None,
        },
    }
}

} // verus!
