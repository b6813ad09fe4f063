//! Lexical analysis: from source text to tokens, one code point at a time,
//! and the serialisation of tokens back to text.
//!
//! Digit runs accumulate left to right into a single number token; a run
//! whose value exceeds the 32-bit signed range is rejected.  Whitespace is
//! skipped; the six punctuation characters map one to one to tokens; any
//! other character is a lexical error.

use vstd::prelude::*;
use vstd::string::*;
use crate::token::{
    Token, LexError, is_digit_char, is_space_char, digit_of, digit_char,
};
use crate::text::{dec_chars, dec_chars_signed, dec_string_i32};

verus! {

/// The position where the digit run starting at `i` ends: the first
/// position at or after `i` holding no digit.
pub open spec fn digit_run_end(s: Seq<char>, i: nat) -> nat
    decreases s.len() - i,
{
    if i < s.len() && is_digit_char(s[i as int]) {
        digit_run_end(s, i + 1)
    } else {
        i
    }
}

/// Bounds and contents of a digit run.
pub proof fn lemma_digit_run_end(s: Seq<char>, i: nat)
    requires
        i <= s.len(),
    ensures
        i <= digit_run_end(s, i) <= s.len(),
        forall|k: int| i <= k < digit_run_end(s, i) ==> is_digit_char(#[trigger] s[k]),
        digit_run_end(s, i) < s.len() ==> !is_digit_char(s[digit_run_end(s, i) as int]),
        i < s.len() && is_digit_char(s[i as int]) ==> digit_run_end(s, i) > i,
    decreases s.len() - i,
{
    if i < s.len() && is_digit_char(s[i as int]) {
        lemma_digit_run_end(s, i + 1);
    }
}

/// A stretch of digits followed by a non-digit (or the end) is exactly the
/// digit run.
pub proof fn lemma_digit_run_end_is(s: Seq<char>, i: nat, j: nat)
    requires
        i <= j <= s.len(),
        forall|k: int| i <= k < j ==> is_digit_char(#[trigger] s[k]),
        j < s.len() ==> !is_digit_char(s[j as int]),
    ensures
        digit_run_end(s, i) == j,
    decreases j - i,
{
    if i < j {
        lemma_digit_run_end_is(s, i + 1, j);
    }
}

/// The value of a digit sequence under base-10 accumulation, left to
/// right.
pub open spec fn digits_val(ds: Seq<char>) -> nat
    decreases ds.len(),
{
    if ds.len() == 0 {
        0
    } else {
        digits_val(ds.drop_last()) * 10 + digit_of(ds.last())
    }
}

/// Extending a digit stretch to the right never shrinks its value.
pub proof fn lemma_digits_val_grows(s: Seq<char>, a: nat, b: nat, c: nat)
    requires
        a <= b <= c <= s.len(),
    ensures
        digits_val(s.subrange(a as int, b as int)) <= digits_val(
            s.subrange(a as int, c as int),
        ),
    decreases c - b,
{
    if b < c {
        lemma_digits_val_grows(s, a, b, (c - 1) as nat);
        assert(s.subrange(a as int, c as int).drop_last() =~= s.subrange(a as int, c as int - 1));
    }
}

/// Prefix the tokens of one piece of text to the outcome on the rest.
pub open spec fn lex_prepend(ts: Seq<Token>, r: Result<Seq<Token>, LexError>) -> Result<
    Seq<Token>,
    LexError,
> {
    match r {
        Ok(rest) => Ok(ts + rest),
        Err(e) => Err(e),
    }
}

/// The tokens of the text from position `i` on, or the first lexical
/// error.
pub open spec fn lex_from(s: Seq<char>, i: nat) -> Result<Seq<Token>, LexError>
    decreases s.len() - i,
    when i <= s.len()
    via lex_from_decreases
{
    if i >= s.len() {
        Ok(Seq::<Token>::empty())
    } else {
        let c = s[i as int];
        if is_digit_char(c) {
            let j = digit_run_end(s, i);
            let v = digits_val(s.subrange(i as int, j as int));
            if v > 0x7fff_ffff {
                Err(LexError::NumberTooLarge)
            } else {
                lex_prepend(seq![Token::Number(v as i32)], lex_from(s, j))
            }
        } else if is_space_char(c) {
            lex_from(s, i + 1)
        } else if c == '+' {
            lex_prepend(seq![Token::Plus], lex_from(s, i + 1))
        } else if c == '-' {
            lex_prepend(seq![Token::Minus], lex_from(s, i + 1))
        } else if c == '*' {
            lex_prepend(seq![Token::Multiply], lex_from(s, i + 1))
        } else if c == '/' {
            lex_prepend(seq![Token::Divide], lex_from(s, i + 1))
        } else if c == '(' {
            lex_prepend(seq![Token::LeftParen], lex_from(s, i + 1))
        } else if c == ')' {
            lex_prepend(seq![Token::RightParen], lex_from(s, i + 1))
        } else {
            Err(LexError::UnexpectedCharacter(c))
        }
    }
}

#[via_fn]
proof fn lex_from_decreases(s: Seq<char>, i: nat) {
    if i < s.len() && is_digit_char(s[i as int]) {
        lemma_digit_run_end(s, i);
    }
}

/// The tokens of a whole source text, or its first lexical error.
pub open spec fn lex_spec(s: Seq<char>) -> Result<Seq<Token>, LexError> {
    lex_from(s, 0)
}

proof fn lemma_lex_prepend_empty(r: Result<Seq<Token>, LexError>)
    ensures
        lex_prepend(Seq::<Token>::empty(), r) == r,
{
    match r {
        Ok(ts) => {
            assert(Seq::<Token>::empty() + ts =~= ts);
        },
        Err(_) => {},
    }
}

proof fn lemma_lex_prepend_push(ts: Seq<Token>, t: Token, r: Result<Seq<Token>, LexError>)
    ensures
        lex_prepend(ts, lex_prepend(seq![t], r)) == lex_prepend(ts.push(t), r),
{
    match r {
        Ok(rest) => {
            assert(ts + (seq![t] + rest) =~= ts.push(t) + rest);
        },
        Err(_) => {},
    }
}

/// The value of one digit character, or `None` for any other character.
fn char_digit_value(c: char) -> (r: Option<u32>)
    ensures
        r is Some <==> is_digit_char(c),
        r matches Some(d) ==> d as nat == digit_of(c),
{
    if c == '0' {
        Some(0)
    } else if c == '1' {
        Some(1)
    } else if c == '2' {
        Some(2)
    } else if c == '3' {
        Some(3)
    } else if c == '4' {
        Some(4)
    } else if c == '5' {
        Some(5)
    } else if c == '6' {
        Some(6)
    } else if c == '7' {
        Some(7)
    } else if c == '8' {
        Some(8)
    } else if c == '9' {
        Some(9)
    } else {
        None
    }
}

/// Scan a source text into its token sequence, or report the first
/// lexical error.
pub fn tokenize_str(input: &str) -> (r: Result<Vec<Token>, LexError>)
    ensures
        match r {
            Ok(v) => lex_spec(input@) == Ok::<Seq<Token>, LexError>(v@),
            Err(e) => lex_spec(input@) == Err::<Seq<Token>, LexError>(e),
        },
{
    let n = input.unicode_len();
    let mut toks: Vec<Token> = Vec::new();
    let mut i: usize = 0;
    proof {
        lemma_lex_prepend_empty(lex_from(input@, 0));
        assert(toks@ =~= Seq::<Token>::empty());
    }
    while i < n
        invariant
            i <= n,
            n as nat == input@.len(),
            lex_from(input@, 0) == lex_prepend(toks@, lex_from(input@, i as nat)),
        decreases n - i,
    {
        let c = input.get_char(i);
        match char_digit_value(c) {
            Some(d) => {
                let ghost start = i as nat;
                let mut value: u32 = d;
                i = i + 1;
                proof {
                    reveal_with_fuel(digits_val, 2);
                    assert(input@.subrange(start as int, i as int) =~= seq![c]);
                    assert(seq![c].drop_last() =~= Seq::<char>::empty());
                    assert(seq![c].last() == c);
                    assert(digits_val(input@.subrange(start as int, i as int)) == d as nat);
                }
                loop
                    invariant
                        start < i as nat <= n as nat,
                        n as nat == input@.len(),
                        is_digit_char(input@[start as int]),
                        forall|k: int|
                            start <= k < i as nat ==> is_digit_char(#[trigger] input@[k]),
                        value as nat == digits_val(input@.subrange(start as int, i as int)),
                        value <= 0x7fff_ffff,
                        lex_from(input@, 0) == lex_prepend(toks@, lex_from(input@, start)),
                    ensures
                        i as nat == digit_run_end(input@, start),
                        value as nat == digits_val(input@.subrange(start as int, i as int)),
                        value <= 0x7fff_ffff,
                        i <= n,
                    decreases n - i,
                {
                    if i >= n {
                        proof {
                            lemma_digit_run_end_is(input@, start, i as nat);
                        }
                        break;
                    }
                    let c2 = input.get_char(i);
                    match char_digit_value(c2) {
                        Some(d2) => {
                            let v2: u64 = value as u64 * 10 + d2 as u64;
                            proof {
                                assert(input@.subrange(start as int, i as int + 1).drop_last()
                                    =~= input@.subrange(start as int, i as int));
                                assert(digits_val(input@.subrange(start as int, i as int + 1))
                                    == v2 as nat);
                            }
                            if v2 > 0x7fff_ffff {
                                proof {
                                    let s = input@;
                                    let j = digit_run_end(s, start);
                                    lemma_digit_run_end(s, start);
                                    if j < i as nat + 1 {
                                        assert(is_digit_char(s[j as int]));
                                        assert(false);
                                    }
                                    lemma_digits_val_grows(s, start, (i + 1) as nat, j);
                                    assert(digits_val(s.subrange(start as int, j as int))
                                        > 0x7fff_ffff);
                                    assert(lex_from(s, start) == Err::<Seq<Token>, LexError>(
                                        LexError::NumberTooLarge,
                                    ));
                                }
                                return Err(LexError::NumberTooLarge);
                            }
                            value = v2 as u32;
                            i = i + 1;
                        },
                        None => {
                            proof {
                                lemma_digit_run_end_is(input@, start, i as nat);
                            }
                            break;
                        },
                    }
                }
                let ghost prev = toks@;
                toks.push(Token::Number(value as i32));
                proof {
                    let s = input@;
                    assert(lex_from(s, start) == lex_prepend(
                        seq![Token::Number(value as i32)],
                        lex_from(s, i as nat),
                    ));
                    lemma_lex_prepend_push(
                        prev,
                        Token::Number(value as i32),
                        lex_from(s, i as nat),
                    );
                }
            },
            None => {
                if c == ' ' || c == '\n' || c == '\t' {
                    i = i + 1;
                } else {
                    let t_opt: Option<Token> = if c == '+' {
                        Some(Token::Plus)
                    } else if c == '-' {
                        Some(Token::Minus)
                    } else if c == '*' {
                        Some(Token::Multiply)
                    } else if c == '/' {
                        Some(Token::Divide)
                    } else if c == '(' {
                        Some(Token::LeftParen)
                    } else if c == ')' {
                        Some(Token::RightParen)
                    } else {
                        None
                    };
                    match t_opt {
                        Some(t) => {
                            let ghost prev = toks@;
                            toks.push(t);
                            proof {
                                assert(lex_from(input@, i as nat) == lex_prepend(
                                    seq![t],
                                    lex_from(input@, i as nat + 1),
                                ));
                                lemma_lex_prepend_push(prev, t, lex_from(input@, i as nat + 1));
                            }
                            i = i + 1;
                        },
                        None => {
                            proof {
                                assert(lex_from(input@, i as nat) == Err::<Seq<Token>, LexError>(
                                    LexError::UnexpectedCharacter(c),
                                ));
                            }
                            return Err(LexError::UnexpectedCharacter(c));
                        },
                    }
                }
            },
        }
    }
    proof {
        assert(lex_from(input@, i as nat) == Ok::<Seq<Token>, LexError>(Seq::<Token>::empty()));
        assert(toks@ + Seq::<Token>::empty() =~= toks@);
    }
    Ok(toks)
}

/// The canonical text of one token: the decimal digits of a number, the
/// symbol of an operator or parenthesis.
pub open spec fn token_chars(t: Token) -> Seq<char> {
    match t {
        Token::Number(v) => dec_chars_signed(v as int),
        Token::Plus => seq!['+'],
        Token::Minus => seq!['-'],
        Token::Multiply => seq!['*'],
        Token::Divide => seq!['/'],
        Token::LeftParen => seq!['('],
        Token::RightParen => seq![')'],
    }
}

/// The canonical text of a token sequence, in order.
pub open spec fn render_spec(ts: Seq<Token>) -> Seq<char>
    decreases ts.len(),
{
    if ts.len() == 0 {
        Seq::<char>::empty()
    } else {
        token_chars(ts[0]) + render_spec(ts.drop_first())
    }
}

/// Serialise a token sequence back to text.
pub fn render_tokens(ts: &Vec<Token>) -> (r: String)
    ensures
        r@ == render_spec(ts@),
{
    let mut out = String::new();
    let mut k: usize = 0;
    proof {
        assert(ts@.skip(0) =~= ts@);
    }
    while k < ts.len()
        invariant
            k <= ts@.len(),
            render_spec(ts@) == out@ + render_spec(ts@.skip(k as int)),
        decreases ts@.len() - k,
    {
        let ghost pre = out@;
        proof {
            assert(ts@.skip(k as int)[0] == ts@[k as int]);
            assert(ts@.skip(k as int).drop_first() =~= ts@.skip(k as int + 1));
        }
        match ts[k] {
            Token::Number(v) => {
                let d = dec_string_i32(v);
                out.append(d.as_str());
            },
            Token::Plus => {
                proof {
                    reveal_strlit("+");
                    assert("+"@ =~= seq!['+']);
                }
                out.append("+");
            },
            Token::Minus => {
                proof {
                    reveal_strlit("-");
                    assert("-"@ =~= seq!['-']);
                }
                out.append("-");
            },
            Token::Multiply => {
                proof {
                    reveal_strlit("*");
                    assert("*"@ =~= seq!['*']);
                }
                out.append("*");
            },
            Token::Divide => {
                proof {
                    reveal_strlit("/");
                    assert("/"@ =~= seq!['/']);
                }
                out.append("/");
            },
            Token::LeftParen => {
                proof {
                    reveal_strlit("(");
                    assert("("@ =~= seq!['(']);
                }
                out.append("(");
            },
            Token::RightParen => {
                proof {
                    reveal_strlit(")");
                    assert(")"@ =~= seq![')']);
                }
                out.append(")");
            },
        }
        proof {
            assert(out@ =~= pre + token_chars(ts@[k as int]));
            assert(pre + token_chars(ts@[k as int]) + render_spec(ts@.skip(k as int + 1)) =~= pre
                + render_spec(ts@.skip(k as int)));
        }
        k = k + 1;
    }
    proof {
        assert(ts@.skip(ts@.len() as int) =~= Seq::<Token>::empty());
        assert(out@ + Seq::<char>::empty() =~= out@);
    }
    out
}

/// The text with its whitespace removed.
pub open spec fn strip_spaces(s: Seq<char>) -> Seq<char>
    decreases s.len(),
{
    if s.len() == 0 {
        Seq::<char>::empty()
    } else if is_space_char(s[0]) {
        strip_spaces(s.drop_first())
    } else {
        seq![s[0]] + strip_spaces(s.drop_first())
    }
}

/// No digit run of the text starts with a superfluous zero: wherever a
/// zero is followed by a digit, another digit precedes it.
pub open spec fn no_leading_zero(s: Seq<char>) -> bool {
    forall|k: int|
        0 <= k < s.len() - 1 && #[trigger] s[k] == '0' && is_digit_char(s[k + 1]) ==> k > 0
            && is_digit_char(s[k - 1])
}

proof fn lemma_digits_val_lower(ds: Seq<char>)
    requires
        ds.len() >= 1,
        forall|k: int| 0 <= k < ds.len() ==> is_digit_char(#[trigger] ds[k]),
        ds[0] != '0',
    ensures
        digits_val(ds) >= 1,
    decreases ds.len(),
{
    reveal_with_fuel(digits_val, 2);
    if ds.len() == 1 {
        assert(ds.drop_last() =~= Seq::<char>::empty());
        assert(ds.last() == ds[0]);
    } else {
        lemma_digits_val_lower(ds.drop_last());
    }
}

/// Decimal rendering inverts base-10 accumulation on a digit sequence
/// without a superfluous leading zero.
proof fn lemma_dec_chars_digits(ds: Seq<char>)
    requires
        ds.len() >= 1,
        forall|k: int| 0 <= k < ds.len() ==> is_digit_char(#[trigger] ds[k]),
        ds.len() >= 2 ==> ds[0] != '0',
    ensures
        dec_chars(digits_val(ds)) == ds,
    decreases ds.len(),
{
    reveal_with_fuel(digits_val, 2);
    let d = digit_of(ds.last());
    crate::token::lemma_digit_char_of(ds.last());
    if ds.len() == 1 {
        assert(ds.drop_last() =~= Seq::<char>::empty());
        assert(digits_val(ds) == d);
        assert(dec_chars(d) == seq![digit_char(d)]);
        assert(seq![digit_char(d)] =~= ds);
    } else {
        let prefix = ds.drop_last();
        assert(prefix[0] == ds[0]);
        lemma_digits_val_lower(prefix);
        lemma_dec_chars_digits(prefix);
        let q = digits_val(prefix);
        let n2 = digits_val(ds);
        assert(n2 == q * 10 + d);
        vstd::arithmetic::div_mod::lemma_fundamental_div_mod_converse(
            n2 as int,
            10,
            q as int,
            d as int,
        );
        assert(n2 >= 10);
        assert(dec_chars(n2) == dec_chars((n2 / 10) as nat).push(digit_char((n2 % 10) as nat)));
        assert((n2 / 10) as nat == q);
        assert((n2 % 10) as nat == d);
        assert(dec_chars(q).push(ds.last()) =~= ds);
    }
}

proof fn lemma_strip_nonspace_prefix(s: Seq<char>, i: nat, j: nat)
    requires
        i <= j <= s.len(),
        forall|k: int| i <= k < j ==> !is_space_char(#[trigger] s[k]),
    ensures
        strip_spaces(s.subrange(i as int, s.len() as int)) == s.subrange(i as int, j as int)
            + strip_spaces(s.subrange(j as int, s.len() as int)),
    decreases j - i,
{
    let n = s.len() as int;
    if i == j {
        assert(s.subrange(i as int, i as int) =~= Seq::<char>::empty());
        assert(Seq::<char>::empty() + strip_spaces(s.subrange(i as int, n)) =~= strip_spaces(
            s.subrange(i as int, n),
        ));
    } else {
        assert(s.subrange(i as int, n)[0] == s[i as int]);
        assert(s.subrange(i as int, n).drop_first() =~= s.subrange(i as int + 1, n));
        lemma_strip_nonspace_prefix(s, i + 1, j);
        assert(seq![s[i as int]] + (s.subrange(i as int + 1, j as int) + strip_spaces(
            s.subrange(j as int, n),
        )) =~= s.subrange(i as int, j as int) + strip_spaces(s.subrange(j as int, n)));
    }
}

proof fn lemma_render_lex_from(s: Seq<char>, i: nat)
    requires
        i <= s.len(),
        lex_from(s, i) is Ok,
        no_leading_zero(s),
        i < s.len() && is_digit_char(s[i as int]) ==> (i == 0 || !is_digit_char(
            s[i as int - 1],
        )),
    ensures
        render_spec(lex_from(s, i).unwrap()) == strip_spaces(
            s.subrange(i as int, s.len() as int),
        ),
    decreases s.len() - i,
{
    let n = s.len() as int;
    if i == s.len() {
        assert(s.subrange(i as int, n) =~= Seq::<char>::empty());
    } else {
        let c = s[i as int];
        assert(s.subrange(i as int, n)[0] == c);
        assert(s.subrange(i as int, n).drop_first() =~= s.subrange(i as int + 1, n));
        if is_digit_char(c) {
            let j = digit_run_end(s, i);
            lemma_digit_run_end(s, i);
            let run = s.subrange(i as int, j as int);
            let v = digits_val(run);
            assert(v <= 0x7fff_ffff);
            let rest = lex_from(s, j);
            assert(rest is Ok);
            lemma_render_lex_from(s, j);
            let toks = lex_from(s, i).unwrap();
            assert(toks =~= seq![Token::Number(v as i32)] + rest.unwrap());
            assert(toks[0] == Token::Number(v as i32));
            assert(toks.drop_first() =~= rest.unwrap());
            assert(run.len() >= 1);
            assert(forall|k: int| 0 <= k < run.len() ==> is_digit_char(#[trigger] run[k]));
            if run.len() >= 2 {
                assert(run[0] == s[i as int]);
                assert(is_digit_char(s[i as int + 1]));
                assert(run[0] != '0');
            }
            lemma_dec_chars_digits(run);
            assert((v as i32) as int == v as int);
            assert(token_chars(Token::Number(v as i32)) == dec_chars(v));
            assert(forall|k: int| i <= k < j ==> !is_space_char(#[trigger] s[k])) by {
                assert forall|k: int| i <= k < j implies !is_space_char(#[trigger] s[k]) by {
                    assert(is_digit_char(s[k]));
                }
            }
            lemma_strip_nonspace_prefix(s, i, j);
            assert(render_spec(toks) == strip_spaces(s.subrange(i as int, n)));
        } else if is_space_char(c) {
            lemma_render_lex_from(s, i + 1);
        } else if c == '+' || c == '-' || c == '*' || c == '/' || c == '(' || c == ')' {
            let t: Token = if c == '+' {
                Token::Plus
            } else if c == '-' {
                Token::Minus
            } else if c == '*' {
                Token::Multiply
            } else if c == '/' {
                Token::Divide
            } else if c == '(' {
                Token::LeftParen
            } else {
                Token::RightParen
            };
            assert(lex_from(s, i) == lex_prepend(seq![t], lex_from(s, i + 1)));
            assert(lex_from(s, i + 1) is Ok);
            lemma_render_lex_from(s, i + 1);
            let rest = lex_from(s, i + 1).unwrap();
            let toks = lex_from(s, i).unwrap();
            assert(toks =~= seq![t] + rest);
            assert(toks[0] == t);
            assert(toks.drop_first() =~= rest);
            assert(token_chars(t) =~= seq![c]);
            assert(render_spec(toks) == seq![c] + render_spec(rest));
            assert(strip_spaces(s.subrange(i as int, n)) == seq![c] + strip_spaces(
                s.subrange(i as int + 1, n),
            ));
        } else {
            assert(lex_from(s, i) is Err);
            assert(false);
        }
    }
}

/// Serialising the tokens of a source text reproduces that text with its
/// whitespace removed, for any text the lexer accepts whose digit runs
/// carry no superfluous leading zero (a leading zero is lost: `007`
/// yields the same token as `7`).
pub proof fn lemma_tokens_render_source(s: Seq<char>)
    requires
        lex_spec(s) is Ok,
        no_leading_zero(s),
    ensures
        render_spec(lex_spec(s).unwrap()) == strip_spaces(s),
{
    lemma_render_lex_from(s, 0);
    assert(s.subrange(0, s.len() as int) =~= s);
}

} // verus!
