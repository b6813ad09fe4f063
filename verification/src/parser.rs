//! Recursive-descent parsing of the token sequence into a syntax tree,
//! with the standard grammar:
//!
//! ```text
//! expression := term ( ('+' | '-') term )*
//! term       := factor ( ('*' | '/') factor )*
//! factor     := Number | '(' expression ')'
//! ```
//!
//! Operators of one precedence level fold into a left-leaning tree.  The
//! parser works with a cursor over the token sequence; every production
//! that succeeds consumes at least one token, so the recursion depth is
//! bounded by the number of tokens remaining at the cursor.

use vstd::prelude::*;
use crate::token::{Token, BinOp, ParseError};
use crate::ast::AstNode;

verus! {

/// Parse one factor at `pos`: a number, or a parenthesised expression.
/// Returns the node and the position after it.
pub open spec fn parse_factor_at(t: Seq<Token>, pos: nat) -> Result<(AstNode, nat), ParseError>
    decreases t.len() - pos, 0int,
{
    if pos >= t.len() {
        Err(ParseError::UnexpectedEnd)
    } else {
        match t[pos as int] {
            Token::Number(v) => Ok((AstNode::Number(v), pos + 1)),
            Token::LeftParen => match parse_expr_at(t, pos + 1) {
                Ok((node, p)) => if p < t.len() && t[p as int] is RightParen {
                    Ok((node, p + 1))
                } else {
                    Err(ParseError::UnbalancedParenthesis)
                },
                Err(e) => Err(e),
            },
            _ => Err(ParseError::UnexpectedToken),
        }
    }
}

/// Parse one term at `pos`: a factor, then any run of `*` or `/` factors.
pub open spec fn parse_term_at(t: Seq<Token>, pos: nat) -> Result<(AstNode, nat), ParseError>
    decreases t.len() - pos, 1int,
{
    match parse_factor_at(t, pos) {
        Ok((left, p)) => if pos < p <= t.len() {
            parse_term_rest(t, p, left)
        } else {
            // A factor that succeeds always leaves `pos < p <= t.len()`;
            // the test only shapes the termination measure.
            Err(ParseError::UnexpectedToken)
        },
        Err(e) => Err(e),
    }
}

/// Fold `*` and `/` factors onto `left`, left-associatively, from `pos`.
pub open spec fn parse_term_rest(t: Seq<Token>, pos: nat, left: AstNode) -> Result<
    (AstNode, nat),
    ParseError,
>
    decreases t.len() - pos, 3int,
{
    if pos < t.len() && (t[pos as int] is Multiply || t[pos as int] is Divide) {
        let op = if t[pos as int] is Multiply {
            BinOp::Mul
        } else {
            BinOp::Div
        };
        match parse_factor_at(t, pos + 1) {
            Ok((right, p2)) => {
                let node = AstNode::BinaryOp(Box::new(left), op, Box::new(right));
                if pos < p2 <= t.len() {
                    parse_term_rest(t, p2, node)
                } else {
                    // As in `parse_term_at`: a successful factor advances.
                    Err(ParseError::UnexpectedToken)
                }
            },
            Err(e) => Err(e),
        }
    } else {
        Ok((left, pos))
    }
}

/// Parse one expression at `pos`: a term, then any run of `+` or `-`
/// terms.
pub open spec fn parse_expr_at(t: Seq<Token>, pos: nat) -> Result<(AstNode, nat), ParseError>
    decreases t.len() - pos, 2int,
{
    match parse_term_at(t, pos) {
        Ok((left, p)) => if pos < p <= t.len() {
            parse_expr_rest(t, p, left)
        } else {
            // As in `parse_term_at`: a successful term advances.
            Err(ParseError::UnexpectedToken)
        },
        Err(e) => Err(e),
    }
}

/// Fold `+` and `-` terms onto `left`, left-associatively, from `pos`.
pub open spec fn parse_expr_rest(t: Seq<Token>, pos: nat, left: AstNode) -> Result<
    (AstNode, nat),
    ParseError,
>
    decreases t.len() - pos, 3int,
{
    if pos < t.len() && (t[pos as int] is Plus || t[pos as int] is Minus) {
        let op = if t[pos as int] is Plus {
            BinOp::Add
        } else {
            BinOp::Sub
        };
        match parse_term_at(t, pos + 1) {
            Ok((right, p2)) => {
                let node = AstNode::BinaryOp(Box::new(left), op, Box::new(right));
                if pos < p2 <= t.len() {
                    parse_expr_rest(t, p2, node)
                } else {
                    // As in `parse_term_at`: a successful term advances.
                    Err(ParseError::UnexpectedToken)
                }
            },
            Err(e) => Err(e),
        }
    } else {
        Ok((left, pos))
    }
}

/// Parse a complete expression covering every token from `pos` to the
/// end; a token left over is an error.
pub open spec fn parse_from(t: Seq<Token>, pos: nat) -> Result<AstNode, ParseError> {
    match parse_expr_at(t, pos) {
        Ok((a, p)) => if p == t.len() {
            Ok(a)
        } else {
            Err(ParseError::UnexpectedToken)
        },
        Err(e) => Err(e),
    }
}

/// Parse a whole token sequence into a single tree.
pub open spec fn parse_tokens(t: Seq<Token>) -> Result<AstNode, ParseError> {
    parse_from(t, 0)
}

proof fn lemma_term_rest_err(t: Seq<Token>, pos: nat, left: AstNode, e: ParseError)
    requires
        pos < t.len(),
        t[pos as int] is Multiply || t[pos as int] is Divide,
        parse_factor_at(t, pos + 1) == Err::<(AstNode, nat), ParseError>(e),
    ensures
        parse_term_rest(t, pos, left) == Err::<(AstNode, nat), ParseError>(e),
{
}

proof fn lemma_expr_rest_err(t: Seq<Token>, pos: nat, left: AstNode, e: ParseError)
    requires
        pos < t.len(),
        t[pos as int] is Plus || t[pos as int] is Minus,
        parse_term_at(t, pos + 1) == Err::<(AstNode, nat), ParseError>(e),
    ensures
        parse_expr_rest(t, pos, left) == Err::<(AstNode, nat), ParseError>(e),
{
}

/// Parse one factor starting at cursor `pos`.
pub fn parse_factor_fn(t: &Vec<Token>, pos: usize) -> (r: Result<(AstNode, usize), ParseError>)
    ensures
        match r {
            Ok((a, p)) => parse_factor_at(t@, pos as nat) == Ok::<(AstNode, nat), ParseError>(
                (a, p as nat),
            ) && pos < p <= t@.len(),
            Err(e) => parse_factor_at(t@, pos as nat) == Err::<(AstNode, nat), ParseError>(e),
        },
    decreases t@.len() - pos, 0int,
{
    if pos >= t.len() {
        return Err(ParseError::UnexpectedEnd);
    }
    match t[pos] {
        Token::Number(v) => Ok((AstNode::Number(v), pos + 1)),
        Token::LeftParen => {
            match parse_expr_fn(t, pos + 1) {
                Ok((node, p)) => {
                    if p < t.len() && t[p] == Token::RightParen {
                        Ok((node, p + 1))
                    } else {
                        Err(ParseError::UnbalancedParenthesis)
                    }
                },
                Err(e) => Err(e),
            }
        },
        _ => Err(ParseError::UnexpectedToken),
    }
}

/// Parse one term starting at cursor `pos`.
pub fn parse_term_fn(t: &Vec<Token>, pos: usize) -> (r: Result<(AstNode, usize), ParseError>)
    ensures
        match r {
            Ok((a, p)) => parse_term_at(t@, pos as nat) == Ok::<(AstNode, nat), ParseError>(
                (a, p as nat),
            ) && pos < p <= t@.len(),
            Err(e) => parse_term_at(t@, pos as nat) == Err::<(AstNode, nat), ParseError>(e),
        },
    decreases t@.len() - pos, 1int,
{
    let mut left: AstNode;
    let mut p: usize;
    match parse_factor_fn(t, pos) {
        Ok((a, q)) => {
            left = a;
            p = q;
        },
        Err(e) => {
            return Err(e);
        },
    }
    while p < t.len() && (t[p] == Token::Multiply || t[p] == Token::Divide)
        invariant
            pos < p <= t@.len(),
            parse_term_at(t@, pos as nat) == parse_term_rest(t@, p as nat, left),
        decreases t@.len() - p,
    {
        let op = if t[p] == Token::Multiply {
            BinOp::Mul
        } else {
            BinOp::Div
        };
        match parse_factor_fn(t, p + 1) {
            Ok((right, p2)) => {
                left = AstNode::BinaryOp(Box::new(left), op, Box::new(right));
                p = p2;
            },
            Err(e) => {
                proof {
                    lemma_term_rest_err(t@, p as nat, left, e);
                }
                return Err(e);
            },
        }
    }
    Ok((left, p))
}

/// Parse one expression starting at cursor `pos`.
pub fn parse_expr_fn(t: &Vec<Token>, pos: usize) -> (r: Result<(AstNode, usize), ParseError>)
    ensures
        match r {
            Ok((a, p)) => parse_expr_at(t@, pos as nat) == Ok::<(AstNode, nat), ParseError>(
                (a, p as nat),
            ) && pos < p <= t@.len(),
            Err(e) => parse_expr_at(t@, pos as nat) == Err::<(AstNode, nat), ParseError>(e),
        },
    decreases t@.len() - pos, 2int,
{
    let mut left: AstNode;
    let mut p: usize;
    match parse_term_fn(t, pos) {
        Ok((a, q)) => {
            left = a;
            p = q;
        },
        Err(e) => {
            return Err(e);
        },
    }
    while p < t.len() && (t[p] == Token::Plus || t[p] == Token::Minus)
        invariant
            pos < p <= t@.len(),
            parse_expr_at(t@, pos as nat) == parse_expr_rest(t@, p as nat, left),
        decreases t@.len() - p,
    {
        let op = if t[p] == Token::Plus {
            BinOp::Add
        } else {
            BinOp::Sub
        };
        match parse_term_fn(t, p + 1) {
            Ok((right, p2)) => {
                left = AstNode::BinaryOp(Box::new(left), op, Box::new(right));
                p = p2;
            },
            Err(e) => {
                proof {
                    lemma_expr_rest_err(t@, p as nat, left, e);
                }
                return Err(e);
            },
        }
    }
    Ok((left, p))
}

} // verus!
