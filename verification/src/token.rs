use vstd::prelude::*;

verus! {

/// A lexical unit of an arithmetic expression.
///
/// The payload of a `Number` is a type parameter: the lexer produces tokens
/// whose payload is the numeral text, and later stages carry any value in
/// its place, since none of them reads the payload.
#[derive(Debug, Clone, Copy, PartialEq)]
pub enum Token<V> {
    Number(V),
    Operation(char),
    LeftParen,
    RightParen,
}

pub open spec fn is_digit_char(c: char) -> bool {
    48 <= c as u32 && c as u32 <= 57
}

pub open spec fn is_numeral_char(c: char) -> bool {
    is_digit_char(c) || c == '.'
}

pub open spec fn is_op_char(c: char) -> bool {
    c == '+' || c == '-' || c == '*' || c == '/'
}

pub open spec fn is_sym_char(c: char) -> bool {
    is_op_char(c) || c == '(' || c == ')'
}

/// Precedence rank: additive operators bind loosest, multiplicative
/// operators tightest, and any other character ranks below both.
pub open spec fn prec(op: char) -> u8 {
    if op == '+' || op == '-' {
        1
    } else if op == '*' || op == '/' {
        2
    } else {
        0
    }
}

pub fn precedence(op: char) -> (p: u8)
    ensures
        p == prec(op),
{
    match op {
        '+' | '-' => 1,
        '*' | '/' => 2,
        _ => 0,
    }
}

/// An `Operation` token carries one of the four operator characters.
pub open spec fn is_wf_tok<V>(t: Token<V>) -> bool {
    match t {
        Token::Operation(c) => is_op_char(c),
        _ => true,
    }
}

pub open spec fn wf_ops<V>(toks: Seq<Token<V>>) -> bool {
    forall|i: int| 0 <= i < toks.len() ==> is_wf_tok(#[trigger] toks[i])
}

/// A token that may stand in a postfix sequence: not a parenthesis.
pub open spec fn is_value_tok<V>(t: Token<V>) -> bool {
    !(t is LeftParen) && !(t is RightParen)
}

/// Pointwise correspondence of two tokens: the same constructor, equal
/// operator characters, and number payloads related by `r`.
pub open spec fn tok_rel<A, B>(a: Token<A>, b: Token<B>, r: spec_fn(A, B) -> bool) -> bool {
    match (a, b) {
        (Token::Number(x), Token::Number(y)) => r(x, y),
        (Token::Operation(c), Token::Operation(d)) => c == d,
        (Token::LeftParen, Token::LeftParen) => true,
        (Token::RightParen, Token::RightParen) => true,
        _ => false,
    }
}

/// Pointwise correspondence of two token sequences under `tok_rel`.
pub open spec fn rel_shape<A, B>(a: Seq<Token<A>>, b: Seq<Token<B>>, r: spec_fn(A, B) -> bool) -> bool {
    &&& a.len() == b.len()
    &&& forall|i: int| 0 <= i < a.len() ==> tok_rel(#[trigger] a[i], #[trigger] b[i], r)
}

} // verus!
