use vstd::prelude::*;
use crate::token::Token;
use crate::token::is_op_char;
use crate::token::rel_shape;
use crate::token::tok_rel;
use crate::token::wf_ops;
use crate::token::is_wf_tok;
use crate::eval::EvalError;
use crate::eval::eval_status;
use crate::eval::evaluate;
use crate::eval::stack_rel;
use crate::laws::lemma_eval_status_rel;
use crate::laws::lemma_sy_rel;
use crate::lexer::LexError;
use crate::lexer::clone_chars;
use crate::lexer::lex_spec;
use crate::lexer::tok_view;
use crate::lexer::tokenize;
use crate::lexer::toks_view;
use crate::lexer::valid_numeral;
use crate::lexer::wf_lexed;
use crate::lexer::wf_lexed_tok;
use crate::postfix::ConvertError;
use crate::postfix::shunting_yard;
use crate::postfix::sy_spec;

verus! {

/// One failure kind for the whole pipeline.
#[derive(Debug, Clone, Copy, PartialEq, Eq, Structural)]
pub enum CalcError {
    /// A numeral has no digit or more than one decimal point.
    InvalidNumber,
    /// No token at all was produced from the input.
    EmptyInput,
    /// A left parenthesis was still open at the end of the input.
    MismatchedParentheses,
    /// An operator found fewer than two values on the stack.
    InsufficientOperands,
    /// A parenthesis reached the evaluator.
    MalformedToken,
    /// No value was left after the evaluation.
    EmptyResult,
}

pub open spec fn lex_err(e: LexError) -> CalcError {
    match e {
        LexError::InvalidNumber => CalcError::InvalidNumber,
        LexError::EmptyInput => CalcError::EmptyInput,
    }
}

pub open spec fn convert_err(e: ConvertError) -> CalcError {
    match e {
        ConvertError::MismatchedParentheses => CalcError::MismatchedParentheses,
    }
}

pub open spec fn eval_err(e: EvalError) -> CalcError {
    match e {
        EvalError::InsufficientOperands => CalcError::InsufficientOperands,
        EvalError::MalformedToken => CalcError::MalformedToken,
        EvalError::EmptyResult => CalcError::EmptyResult,
    }
}

impl CalcError {
    /// A human-readable line classifying the failure.
    pub fn message(&self) -> (m: String)
        ensures
            m@ == match *self {
                CalcError::InvalidNumber => "Invalid number entered."@,
                CalcError::EmptyInput => "No tokens found."@,
                CalcError::MismatchedParentheses => "Mismatched parentheses"@,
                CalcError::InsufficientOperands => "Insufficient operands."@,
                CalcError::MalformedToken => "Invalid token in output queue"@,
                CalcError::EmptyResult => "Invalid expression."@,
            },
    {
        match *self {
            CalcError::InvalidNumber => "Invalid number entered.".to_owned(),
            CalcError::EmptyInput => "No tokens found.".to_owned(),
            CalcError::MismatchedParentheses => "Mismatched parentheses".to_owned(),
            CalcError::InsufficientOperands => "Insufficient operands.".to_owned(),
            CalcError::MalformedToken => "Invalid token in output queue".to_owned(),
            CalcError::EmptyResult => "Invalid expression.".to_owned(),
        }
    }
}

/// The relation `parse` establishes between a numeral and a number.
pub open spec fn parse_rel<V, F: Fn(Vec<char>) -> V>(parse: F) -> spec_fn(Seq<char>, V) -> bool {
    |s: Seq<char>, v: V|
        exists|buf: Vec<char>| buf@ == s && #[trigger] call_ensures(parse, (buf,), v)
}

/// Replaces each numeral payload by the value `parse` gives for it; the
/// rest of each token is kept, position by position.
pub fn parse_numbers<V, F: Fn(Vec<char>) -> V>(tokens: &Vec<Token<Vec<char>>>, parse: &F) -> (r:
    Vec<Token<V>>)
    requires
        wf_lexed(toks_view(tokens@)),
        forall|buf: Vec<char>| valid_numeral(buf@) ==> call_requires(*parse, (buf,)),
    ensures
        rel_shape(toks_view(tokens@), r@, parse_rel(*parse)),
        wf_ops(r@),
{
    let mut r: Vec<Token<V>> = Vec::new();
    let mut i: usize = 0;
    while i < tokens.len()
        invariant
            i <= tokens@.len(),
            r@.len() == i,
            forall|j: int|
                0 <= j < i ==> tok_rel(toks_view(tokens@)[j], #[trigger] r@[j], parse_rel(*parse)),
            wf_ops(r@),
        decreases tokens@.len() - i,
    {
        proof {
            assert(toks_view(tokens@)[i as int] == tok_view(tokens@[i as int]));
            assert(wf_lexed_tok(toks_view(tokens@)[i as int]));
        }
        let t: Token<V> = match &tokens[i] {
            Token::Number(s) => {
                let buf = clone_chars(s);
                let ghost bufg = buf;
                let v = parse(buf);
                proof {
                    assert(call_ensures(*parse, (bufg,), v));
                    assert(parse_rel(*parse)(bufg@, v));
                }
                Token::Number(v)
            },
            Token::Operation(c) => Token::Operation(*c),
            Token::LeftParen => Token::LeftParen,
            Token::RightParen => Token::RightParen,
        };
        r.push(t);
        proof {
            assert(tok_rel(toks_view(tokens@)[i as int], r@[i as int], parse_rel(*parse)));
            assert(is_wf_tok(r@[i as int]));
        }
        i = i + 1;
    }
    r
}

/// What the whole pipeline decides on `input`, independently of the number
/// type: the postfix token sequence, at the numeral level, whose value is
/// returned, or the exact error.
pub open spec fn pipeline_shape(input: Seq<char>) -> Result<Seq<Token<Seq<char>>>, CalcError> {
    match lex_spec(input) {
        Err(e) => Err(lex_err(e)),
        Ok(toks) => match sy_spec(toks) {
            Err(e) => Err(convert_err(e)),
            Ok(post) => match eval_status(post) {
                Err(e) => Err(eval_err(e)),
                Ok(h) => if h == 0 {
                    Err(CalcError::EmptyResult)
                } else {
                    Ok(post)
                },
            },
        },
    }
}

/// `v` is a value the pipeline may return for `input`: the numerals of the
/// postfix sequence parse to numbers that evaluate to `v`.
pub open spec fn pipeline_value<V, FP: Fn(Vec<char>) -> V, FA: Fn(char, V, V) -> V>(
    input: Seq<char>,
    parse: FP,
    apply: FA,
    v: V,
) -> bool {
    pipeline_shape(input) matches Ok(post) && exists|ts: Seq<Token<V>>, s: Seq<V>|
        rel_shape(post, ts, parse_rel(parse)) && (#[trigger] stack_rel(apply, ts, s)) && s.len()
            >= 1 && v == s.last()
}

/// Runs the whole pipeline on one line of text: lexing, conversion to
/// postfix, and evaluation, with `parse` turning each numeral into a
/// number and `apply` applying an operator character to two numbers, the
/// left operand first.
pub fn evaluate_text<V: Copy, FP: Fn(Vec<char>) -> V, FA: Fn(char, V, V) -> V>(
    input: &str,
    parse: FP,
    apply: FA,
) -> (r: Result<V, CalcError>)
    requires
        forall|buf: Vec<char>| valid_numeral(buf@) ==> call_requires(parse, (buf,)),
        forall|op: char, a: V, b: V| is_op_char(op) ==> call_requires(apply, (op, a, b)),
    ensures
        pipeline_shape(input@) matches Err(e) ==> r matches Err(e2) && e2 == e,
        pipeline_shape(input@) is Ok ==> (r matches Ok(v) && pipeline_value(
            input@,
            parse,
            apply,
            v,
        )),
{
    let toks = match tokenize(input) {
        Ok(t) => t,
        Err(e) => {
            return Err(
                match e {
                    LexError::InvalidNumber => CalcError::InvalidNumber,
                    LexError::EmptyInput => CalcError::EmptyInput,
                },
            );
        },
    };
    let ghost lexed = lex_spec(input@)->Ok_0;
    let parsed = parse_numbers(&toks, &parse);
    proof {
        assert(rel_shape(lexed, parsed@, parse_rel(parse)));
        lemma_sy_rel(lexed, parsed@, parse_rel(parse));
    }
    let post = match shunting_yard(parsed) {
        Ok(p) => p,
        Err(_) => {
            return Err(CalcError::MismatchedParentheses);
        },
    };
    let ghost spec_post = sy_spec(lexed)->Ok_0;
    proof {
        assert(rel_shape(spec_post, post@, parse_rel(parse)));
        lemma_eval_status_rel(spec_post, post@, parse_rel(parse));
    }
    match evaluate(post, apply) {
        Ok(v) => {
            proof {
                let s = choose|s: Seq<V>|
                    stack_rel(apply, post@, s) && s.len() == eval_status(post@)->Ok_0 && v
                        == s.last();
                assert(rel_shape(spec_post, post@, parse_rel(parse)) && stack_rel(apply, post@, s)
                    && s.len() >= 1 && v == s.last());
                assert(pipeline_value(input@, parse, apply, v));
            }
            Ok(v)
        },
        Err(e) => {
            Err(
                match e {
                    EvalError::InsufficientOperands => CalcError::InsufficientOperands,
                    EvalError::MalformedToken => CalcError::MalformedToken,
                    EvalError::EmptyResult => CalcError::EmptyResult,
                },
            )
        },
    }
}

} // verus!
