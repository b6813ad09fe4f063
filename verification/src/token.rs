//! Tokens, operators, and the error taxonomy of the pipeline, together with
//! the character classes the lexer recognises.

use vstd::prelude::*;

verus! {

/// The smallest lexical unit of the expression language.
#[derive(Debug, PartialEq, Eq, Structural, Clone, Copy)]
pub enum Token {
    /// A run of decimal digits, accumulated into its value.
    Number(i32),
    Plus,
    Minus,
    Multiply,
    Divide,
    LeftParen,
    RightParen,
}

/// One of the four binary operators of the expression language.
#[derive(Debug, PartialEq, Eq, Structural, Clone, Copy)]
pub enum BinOp {
    Add,
    Sub,
    Mul,
    Div,
}

/// Failure of lexical analysis.
#[derive(Debug, PartialEq, Eq, Structural, Clone, Copy)]
pub enum LexError {
    /// A code point that starts no token: not a digit, an operator, a
    /// parenthesis, or whitespace.
    UnexpectedCharacter(char),
    /// A digit run whose value exceeds the 32-bit signed range.  Rejecting
    /// the run is a deliberate choice: a literal that silently wrapped
    /// around would compile to an instruction pushing a different number
    /// than the one written in the source.
    NumberTooLarge,
}

/// Failure of parsing.
#[derive(Debug, PartialEq, Eq, Structural, Clone, Copy)]
pub enum ParseError {
    /// A token that no grammar production allows at its position, or a
    /// token left over after a complete expression.
    UnexpectedToken,
    /// The token sequence ended where a factor or an operand was required.
    UnexpectedEnd,
    /// A parenthesised expression without its closing parenthesis.
    UnbalancedParenthesis,
}

/// Failure of the whole pipeline: either stage's error, tagged.
#[derive(Debug, PartialEq, Eq, Structural, Clone, Copy)]
pub enum CompileError {
    Lex(LexError),
    Parse(ParseError),
}

/// The characters recognised as decimal digits.
pub open spec fn is_digit_char(c: char) -> bool {
    c == '0' || c == '1' || c == '2' || c == '3' || c == '4' || c == '5' || c == '6' || c == '7'
        || c == '8' || c == '9'
}

/// The numeric value of a digit character (meaningful only for digits).
pub open spec fn digit_of(c: char) -> nat {
    if c == '0' {
        0
    } else if c == '1' {
        1
    } else if c == '2' {
        2
    } else if c == '3' {
        3
    } else if c == '4' {
        4
    } else if c == '5' {
        5
    } else if c == '6' {
        6
    } else if c == '7' {
        7
    } else if c == '8' {
        8
    } else if c == '9' {
        9
    } else {
        10
    }
}

/// The digit character of a value below ten.
pub open spec fn digit_char(d: nat) -> char {
    if d == 0 {
        '0'
    } else if d == 1 {
        '1'
    } else if d == 2 {
        '2'
    } else if d == 3 {
        '3'
    } else if d == 4 {
        '4'
    } else if d == 5 {
        '5'
    } else if d == 6 {
        '6'
    } else if d == 7 {
        '7'
    } else if d == 8 {
        '8'
    } else {
        '9'
    }
}

/// The characters the lexer skips without producing a token.
pub open spec fn is_space_char(c: char) -> bool {
    c == ' ' || c == '\n' || c == '\t'
}

/// Digit classification and digit value are mutually inverse.
pub proof fn lemma_digit_char_of(c: char)
    requires
        is_digit_char(c),
    ensures
        digit_of(c) < 10,
        digit_char(digit_of(c)) == c,
{
}

} // verus!
