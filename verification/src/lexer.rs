use vstd::prelude::*;
use crate::token::Token;
use crate::token::is_digit_char;
use crate::token::is_numeral_char;
use crate::token::is_op_char;
use crate::token::is_sym_char;
use crate::token::wf_ops;

verus! {

#[derive(Debug, Clone, Copy, PartialEq, Eq, Structural)]
pub enum LexError {
    /// A numeral in the input has no digit or more than one decimal point.
    InvalidNumber,
    /// No token at all was produced from the input.
    EmptyInput,
}

pub open spec fn digit_count(s: Seq<char>) -> nat
    decreases s.len(),
{
    if s.len() == 0 {
        0
    } else {
        digit_count(s.drop_last()) + if is_digit_char(s.last()) {
            1nat
        } else {
            0
        }
    }
}

pub open spec fn dot_count(s: Seq<char>) -> nat
    decreases s.len(),
{
    if s.len() == 0 {
        0
    } else {
        dot_count(s.drop_last()) + if s.last() == '.' {
            1nat
        } else {
            0
        }
    }
}

/// A numeral denotes a decimal number exactly when it has at least one
/// digit and at most one decimal point.
pub open spec fn valid_numeral(s: Seq<char>) -> bool {
    digit_count(s) >= 1 && dot_count(s) <= 1
}

/// The token an operator or parenthesis character stands for.
pub open spec fn sym_token<V>(c: char) -> Token<V> {
    if c == '(' {
        Token::LeftParen
    } else if c == ')' {
        Token::RightParen
    } else {
        Token::Operation(c)
    }
}

/// Appends the pending numeral, if any, to the tokens read so far.
pub open spec fn flush(toks: Seq<Token<Seq<char>>>, buf: Seq<char>) -> Seq<Token<Seq<char>>> {
    if buf.len() > 0 {
        toks.push(Token::Number(buf))
    } else {
        toks
    }
}

/// One character of lexing: digits and decimal points extend the pending
/// numeral, an operator or parenthesis first flushes the numeral (`None`
/// if it is not a valid one) and then stands as a token of its own, and
/// every other character is skipped.
pub open spec fn lex_step(st: (Seq<Token<Seq<char>>>, Seq<char>), c: char) -> Option<
    (Seq<Token<Seq<char>>>, Seq<char>),
> {
    if is_numeral_char(c) {
        Some((st.0, st.1.push(c)))
    } else if is_sym_char(c) {
        if st.1.len() > 0 && !valid_numeral(st.1) {
            None
        } else {
            Some((flush(st.0, st.1).push(sym_token(c)), Seq::empty()))
        }
    } else {
        Some((st.0, st.1))
    }
}

/// The lexer's state after reading `s`: the tokens produced so far and the
/// pending numeral, or `None` once an invalid numeral was flushed.
pub open spec fn lex_state(s: Seq<char>) -> Option<(Seq<Token<Seq<char>>>, Seq<char>)>
    decreases s.len(),
{
    if s.len() == 0 {
        Some((Seq::empty(), Seq::empty()))
    } else {
        match lex_state(s.drop_last()) {
            None => None,
            Some(st) => lex_step(st, s.last()),
        }
    }
}

/// What lexing `s` returns: the token sequence read left to right,
/// `InvalidNumber` if some numeral is not a valid one, `EmptyInput` if no
/// token at all was produced.
pub open spec fn lex_spec(s: Seq<char>) -> Result<Seq<Token<Seq<char>>>, LexError> {
    match lex_state(s) {
        None => Err(LexError::InvalidNumber),
        Some(st) => {
            if st.1.len() > 0 && !valid_numeral(st.1) {
                Err(LexError::InvalidNumber)
            } else {
                let all = flush(st.0, st.1);
                if all.len() == 0 {
                    Err(LexError::EmptyInput)
                } else {
                    Ok(all)
                }
            }
        },
    }
}

/// The payload-level view of a lexed token: the numeral as a sequence of
/// characters.
pub open spec fn tok_view(t: Token<Vec<char>>) -> Token<Seq<char>> {
    match t {
        Token::Number(v) => Token::Number(v@),
        Token::Operation(c) => Token::Operation(c),
        Token::LeftParen => Token::LeftParen,
        Token::RightParen => Token::RightParen,
    }
}

pub open spec fn toks_view(ts: Seq<Token<Vec<char>>>) -> Seq<Token<Seq<char>>> {
    ts.map_values(|t: Token<Vec<char>>| tok_view(t))
}

/// How a lexer result corresponds to `lex_spec`: the same error, or token
/// for token the same sequence.
pub open spec fn lex_result_matches(
    input: Seq<char>,
    r: Result<Vec<Token<Vec<char>>>, LexError>,
) -> bool {
    match (lex_spec(input), r) {
        (Ok(spec_toks), Ok(ts)) => toks_view(ts@) == spec_toks,
        (Err(e1), Err(e2)) => e1 == e2,
        _ => false,
    }
}

/// A token as the lexer makes it: operator characters are one of the four,
/// numerals are valid.
pub open spec fn wf_lexed_tok(t: Token<Seq<char>>) -> bool {
    match t {
        Token::Number(s) => valid_numeral(s),
        Token::Operation(c) => is_op_char(c),
        _ => true,
    }
}

pub open spec fn wf_lexed(ts: Seq<Token<Seq<char>>>) -> bool {
    forall|i: int| 0 <= i < ts.len() ==> wf_lexed_tok(#[trigger] ts[i])
}

/// Once the lexer's state is `None`, reading more characters keeps it so.
proof fn lemma_lex_state_none(s: Seq<char>, n: int)
    requires
        0 <= n <= s.len(),
        lex_state(s.take(n)) is None,
    ensures
        lex_state(s) is None,
    decreases s.len() - n,
{
    if n < s.len() {
        assert(s.take(n + 1).drop_last() =~= s.take(n));
        assert(lex_state(s.take(n + 1)) is None);
        lemma_lex_state_none(s, n + 1);
    } else {
        assert(s.take(n) =~= s);
    }
}

/// Every token the lexer's state holds is well formed, and the pending
/// numeral holds numeral characters only.
pub proof fn lemma_lex_state_wf(s: Seq<char>)
    ensures
        lex_state(s) matches Some(st) ==> wf_lexed(st.0) && (forall|j: int|
            0 <= j < st.1.len() ==> is_numeral_char(#[trigger] st.1[j])),
    decreases s.len(),
{
    if s.len() > 0 {
        lemma_lex_state_wf(s.drop_last());
        if lex_state(s.drop_last()) is Some {
            let prev = lex_state(s.drop_last())->Some_0;
            let c = s.last();
            if is_numeral_char(c) {
                assert(forall|j: int|
                    0 <= j < prev.1.push(c).len() ==> is_numeral_char(#[trigger] prev.1.push(c)[j]));
            } else if is_sym_char(c) {
                if !(prev.1.len() > 0 && !valid_numeral(prev.1)) {
                    let flushed = flush(prev.0, prev.1);
                    assert(wf_lexed(flushed));
                    assert(wf_lexed_tok(sym_token::<Seq<char>>(c)));
                    assert(wf_lexed(flushed.push(sym_token(c))));
                }
            }
        }
    }
}

/// Every token a successful lexing returns is well formed.
pub proof fn lemma_lex_spec_wf(s: Seq<char>)
    ensures
        lex_spec(s) matches Ok(toks) ==> wf_lexed(toks) && wf_ops(toks),
{
    lemma_lex_state_wf(s);
    if lex_spec(s) is Ok {
        let toks = lex_spec(s)->Ok_0;
        let st = lex_state(s)->Some_0;
        if st.1.len() > 0 {
            assert(wf_lexed(st.0.push(Token::Number(st.1))));
        }
        assert(wf_lexed(toks));
        assert forall|i: int| 0 <= i < toks.len() implies crate::token::is_wf_tok(
            #[trigger] toks[i],
        ) by {
            assert(wf_lexed_tok(toks[i]));
        }
    }
}

/// Decides `valid_numeral` for a pending numeral.
fn numeral_valid(buf: &Vec<char>) -> (b: bool)
    ensures
        b == valid_numeral(buf@),
{
    let mut digits: usize = 0;
    let mut dots: usize = 0;
    let mut i: usize = 0;
    while i < buf.len()
        invariant
            i <= buf.len(),
            digits == digit_count(buf@.take(i as int)),
            dots == dot_count(buf@.take(i as int)),
            digits <= i,
            dots <= i,
        decreases buf.len() - i,
    {
        let c = buf[i];
        proof {
            assert(buf@.take(i as int + 1).drop_last() =~= buf@.take(i as int));
        }
        let u = c as u32;
        if 48 <= u && u <= 57 {
            digits = digits + 1;
        } else if c == '.' {
            dots = dots + 1;
        }
        i = i + 1;
    }
    proof {
        assert(buf@.take(buf.len() as int) =~= buf@);
    }
    digits >= 1 && dots <= 1
}

/// Copies a numeral.
pub fn clone_chars(v: &Vec<char>) -> (r: Vec<char>)
    ensures
        r@ == v@,
{
    let mut r: Vec<char> = Vec::new();
    let mut i: usize = 0;
    while i < v.len()
        invariant
            i <= v.len(),
            r@ == v@.take(i as int),
        decreases v.len() - i,
    {
        r.push(v[i]);
        proof {
            assert(v@.take(i as int + 1) =~= v@.take(i as int).push(v@[i as int]));
        }
        i = i + 1;
    }
    proof {
        assert(v@.take(v.len() as int) =~= v@);
    }
    r
}

/// Turns text into tokens, left to right: digit and decimal-point
/// characters accumulate into a pending numeral; an operator or
/// parenthesis character first ends the pending numeral, failing with
/// `InvalidNumber` if it is not a valid one, and then stands as a token of
/// its own; every other character is skipped.  Fails with `EmptyInput`
/// when no token at all was produced.
pub fn tokenize(input: &str) -> (r: Result<Vec<Token<Vec<char>>>, LexError>)
    ensures
        lex_result_matches(input@, r),
        r matches Ok(ts) ==> wf_lexed(toks_view(ts@)) && wf_ops(toks_view(ts@)),
{
    let n = input.unicode_len();
    let mut toks: Vec<Token<Vec<char>>> = Vec::new();
    let mut buf: Vec<char> = Vec::new();
    let mut i: usize = 0;
    while i < n
        invariant
            i <= n,
            n == input@.len(),
            lex_state(input@.take(i as int)) == Some((toks_view(toks@), buf@)),
        decreases n - i,
    {
        let c = input.get_char(i);
        proof {
            assert(input@.take(i as int + 1).drop_last() =~= input@.take(i as int));
        }
        let ghost prev_toks = toks_view(toks@);
        let u = c as u32;
        if (48 <= u && u <= 57) || c == '.' {
            buf.push(c);
        } else if c == '(' || c == ')' || c == '+' || c == '-' || c == '*' || c == '/' {
            if buf.len() > 0 {
                if !numeral_valid(&buf) {
                    proof {
                        assert(lex_state(input@.take(i as int + 1)) is None);
                        lemma_lex_state_none(input@, i as int + 1);
                    }
                    return Err(LexError::InvalidNumber);
                }
                let done = buf;
                buf = Vec::new();
                toks.push(Token::Number(done));
                proof {
                    assert(toks_view(toks@) =~= prev_toks.push(Token::Number(done@)));
                }
            }
            let ghost flushed = toks_view(toks@);
            let t: Token<Vec<char>> = if c == '(' {
                Token::LeftParen
            } else if c == ')' {
                Token::RightParen
            } else {
                Token::Operation(c)
            };
            toks.push(t);
            proof {
                assert(toks_view(toks@) =~= flushed.push(sym_token(c)));
            }
        }
        i = i + 1;
    }
    proof {
        assert(input@.take(n as int) =~= input@);
    }
    if buf.len() > 0 {
        if !numeral_valid(&buf) {
            return Err(LexError::InvalidNumber);
        }
        let ghost prev_toks = toks_view(toks@);
        let done = buf;
        toks.push(Token::Number(done));
        proof {
            assert(toks_view(toks@) =~= prev_toks.push(Token::Number(done@)));
        }
    }
    if toks.len() == 0 {
        return Err(LexError::EmptyInput);
    }
    proof {
        lemma_lex_spec_wf(input@);
    }
    Ok(toks)
}

} // verus!
