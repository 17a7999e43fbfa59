use vstd::prelude::*;
use crate::token::Token;
use crate::token::is_op_char;
use crate::token::is_wf_tok;
use crate::token::wf_ops;

verus! {

#[derive(Debug, Clone, Copy, PartialEq, Eq, Structural)]
pub enum EvalError {
    /// An operator found fewer than two values on the stack.
    InsufficientOperands,
    /// A parenthesis reached the evaluator.
    MalformedToken,
    /// No value was left after processing all tokens.
    EmptyResult,
}

/// The height of the value stack after processing `toks`, or the first
/// failure: an operator needs two values on the stack, and a parenthesis
/// may not appear at all.  The height settles which token sequences
/// evaluate and to which error the rest fail, whatever the values are.
pub open spec fn eval_status<V>(toks: Seq<Token<V>>) -> Result<nat, EvalError>
    decreases toks.len(),
{
    if toks.len() == 0 {
        Ok(0)
    } else {
        match eval_status(toks.drop_last()) {
            Err(e) => Err(e),
            Ok(h) => match toks.last() {
                Token::Number(_) => Ok(h + 1),
                Token::Operation(_) => if h >= 2 {
                    Ok((h - 1) as nat)
                } else {
                    Err(EvalError::InsufficientOperands)
                },
                _ => Err(EvalError::MalformedToken),
            },
        }
    }
}

/// One step of the value stack: a number is pushed; an operator takes the
/// two topmost values, the topmost being its right operand, and leaves one
/// of the values `apply` may return for them.
pub open spec fn step_rel<V, F: Fn(char, V, V) -> V>(
    apply: F,
    prev: Seq<V>,
    t: Token<V>,
    cur: Seq<V>,
) -> bool {
    match t {
        Token::Number(x) => cur == prev.push(x),
        Token::Operation(op) => prev.len() >= 2 && exists|res: V|
            call_ensures(apply, (op, prev[prev.len() - 2], prev[prev.len() - 1]), res) && cur
                == prev.drop_last().drop_last().push(res),
        _ => false,
    }
}

/// A run of the value stack over `toks`: the stack before the first token
/// is empty, and each token steps it.
pub open spec fn stack_run<V, F: Fn(char, V, V) -> V>(
    apply: F,
    toks: Seq<Token<V>>,
    hist: Seq<Seq<V>>,
) -> bool {
    &&& hist.len() == toks.len() + 1
    &&& hist[0] == Seq::<V>::empty()
    &&& forall|j: int| 0 <= j < toks.len() ==> step_rel(apply, #[trigger] hist[j], toks[j], hist[j + 1])
}

/// The value stacks that processing `toks` from an empty stack can reach.
/// When `apply` is deterministic there is exactly one such stack.
pub open spec fn stack_rel<V, F: Fn(char, V, V) -> V>(
    apply: F,
    toks: Seq<Token<V>>,
    stack: Seq<V>,
) -> bool {
    exists|hist: Seq<Seq<V>>| (#[trigger] stack_run(apply, toks, hist)) && stack == hist.last()
}

/// Once the evaluation has failed, the rest of the tokens do not change
/// the failure.
proof fn lemma_eval_status_err<V>(toks: Seq<Token<V>>, n: int)
    requires
        0 <= n <= toks.len(),
        eval_status(toks.take(n)) is Err,
    ensures
        eval_status(toks) == eval_status(toks.take(n)),
    decreases toks.len() - n,
{
    if n < toks.len() {
        assert(toks.take(n + 1).drop_last() =~= toks.take(n));
        lemma_eval_status_err(toks, n + 1);
    } else {
        assert(toks.take(n) =~= toks);
    }
}

/// Evaluates a postfix sequence against a value stack: a number is pushed;
/// an operator pops its right operand, then its left one, and pushes what
/// `apply` returns for them.  The result is the topmost value left at the
/// end; extra values below it are not an error.
pub fn evaluate<V: Copy, F: Fn(char, V, V) -> V>(postfix: Vec<Token<V>>, apply: F) -> (r: Result<
    V,
    EvalError,
>)
    requires
        wf_ops(postfix@),
        forall|op: char, a: V, b: V| is_op_char(op) ==> call_requires(apply, (op, a, b)),
    ensures
        eval_status(postfix@) matches Err(e) ==> r matches Err(e2) && e2 == e,
        eval_status(postfix@) matches Ok(h) ==> if h == 0 {
            r == Err::<V, EvalError>(EvalError::EmptyResult)
        } else {
            r matches Ok(v) && exists|s: Seq<V>|
                stack_rel(apply, postfix@, s) && s.len() == h && v == s.last()
        },
{
    let mut stack: Vec<V> = Vec::new();
    let ghost mut hist: Seq<Seq<V>> = seq![Seq::<V>::empty()];
    let mut i: usize = 0;
    while i < postfix.len()
        invariant
            i <= postfix@.len(),
            eval_status(postfix@.take(i as int)) == Ok::<nat, EvalError>(stack@.len() as nat),
            hist.len() == i + 1,
            hist[0] == Seq::<V>::empty(),
            hist.last() == stack@,
            forall|j: int|
                0 <= j < i ==> step_rel(apply, #[trigger] hist[j], postfix@[j], hist[j + 1]),
        decreases postfix@.len() - i,
    {
        let t = postfix[i];
        proof {
            assert(postfix@.take(i as int + 1).drop_last() =~= postfix@.take(i as int));
            assert(is_wf_tok(postfix@[i as int]));
        }
        match t {
            Token::Number(x) => {
                let ghost prev = stack@;
                stack.push(x);
                proof {
                    assert(step_rel(apply, prev, t, stack@));
                    hist = hist.push(stack@);
                }
            },
            Token::Operation(op) => {
                if stack.len() < 2 {
                    proof {
                        lemma_eval_status_err(postfix@, i as int + 1);
                    }
                    return Err(EvalError::InsufficientOperands);
                }
                let ghost prev = stack@;
                let b = stack.pop().unwrap();
                let a = stack.pop().unwrap();
                let v = apply(op, a, b);
                stack.push(v);
                proof {
                    assert(a == prev[prev.len() - 2] && b == prev[prev.len() - 1]);
                    assert(call_ensures(apply, (op, prev[prev.len() - 2], prev[prev.len() - 1]), v));
                    assert(stack@ == prev.drop_last().drop_last().push(v));
                    assert(step_rel(apply, prev, t, stack@));
                    hist = hist.push(stack@);
                }
            },
            _ => {
                proof {
                    lemma_eval_status_err(postfix@, i as int + 1);
                }
                return Err(EvalError::MalformedToken);
            },
        }
        i = i + 1;
    }
    proof {
        assert(postfix@.take(postfix@.len() as int) =~= postfix@);
    }
    let ghost whole = stack@;
    match stack.pop() {
        Some(v) => {
            proof {
                assert(stack_run(apply, postfix@, hist));
                assert(stack_rel(apply, postfix@, whole));
                assert(whole.len() > 0 && v == whole.last());
            }
            Ok(v)
        },
        None => Err(EvalError::EmptyResult),
    }
}

} // verus!
