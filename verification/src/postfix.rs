use vstd::prelude::*;
use crate::token::Token;
use crate::token::is_value_tok;
use crate::token::is_wf_tok;
use crate::token::prec;
use crate::token::wf_ops;
use crate::token::precedence;

verus! {

#[derive(Debug, Clone, Copy, PartialEq, Eq, Structural)]
pub enum ConvertError {
    /// A left parenthesis was still open at the end of the input.
    MismatchedParentheses,
}

/// Pops pending operators that bind at least as tightly as `op` from the
/// stack onto the queue; anything else on top of the stack stops it.
pub open spec fn pop_ops<V>(q: Seq<Token<V>>, st: Seq<Token<V>>, op: char) -> (
    Seq<Token<V>>,
    Seq<Token<V>>,
)
    decreases st.len(),
{
    if st.len() == 0 {
        (q, st)
    } else {
        match st.last() {
            Token::Operation(top) => if prec(op) <= prec(top) && top != '(' {
                pop_ops(q.push(st.last()), st.drop_last(), op)
            } else {
                (q, st)
            },
            _ => (q, st),
        }
    }
}

/// Pops the stack onto the queue until a left parenthesis is popped and
/// discarded; an empty stack ends it silently.
pub open spec fn pop_until_lparen<V>(q: Seq<Token<V>>, st: Seq<Token<V>>) -> (
    Seq<Token<V>>,
    Seq<Token<V>>,
)
    decreases st.len(),
{
    if st.len() == 0 {
        (q, st)
    } else if st.last() is LeftParen {
        (q, st.drop_last())
    } else {
        pop_until_lparen(q.push(st.last()), st.drop_last())
    }
}

/// One token of the conversion: numbers go to the queue, a left
/// parenthesis goes onto the stack, a right parenthesis pops back to the
/// matching left one, and an operator first pops the operators that bind
/// at least as tightly and then goes onto the stack.
pub open spec fn sy_step<V>(q: Seq<Token<V>>, st: Seq<Token<V>>, t: Token<V>) -> (
    Seq<Token<V>>,
    Seq<Token<V>>,
) {
    match t {
        Token::Number(_) => (q.push(t), st),
        Token::LeftParen => (q, st.push(t)),
        Token::RightParen => pop_until_lparen(q, st),
        Token::Operation(op) => {
            let r = pop_ops(q, st, op);
            (r.0, r.1.push(t))
        },
    }
}

/// The output queue and operator stack after converting `toks`.
pub open spec fn sy_state<V>(toks: Seq<Token<V>>) -> (Seq<Token<V>>, Seq<Token<V>>)
    decreases toks.len(),
{
    if toks.len() == 0 {
        (Seq::empty(), Seq::empty())
    } else {
        let prev = sy_state(toks.drop_last());
        sy_step(prev.0, prev.1, toks.last())
    }
}

/// Pops the remaining stack onto the queue; a left parenthesis still on it
/// is an unclosed parenthesis and fails the conversion.
pub open spec fn sy_drain<V>(q: Seq<Token<V>>, st: Seq<Token<V>>) -> Result<
    Seq<Token<V>>,
    ConvertError,
>
    decreases st.len(),
{
    if st.len() == 0 {
        Ok(q)
    } else if st.last() is LeftParen {
        Err(ConvertError::MismatchedParentheses)
    } else {
        sy_drain(q.push(st.last()), st.drop_last())
    }
}

/// What converting `toks` to postfix returns.
pub open spec fn sy_spec<V>(toks: Seq<Token<V>>) -> Result<Seq<Token<V>>, ConvertError> {
    let st = sy_state(toks);
    sy_drain(st.0, st.1)
}

/// Left parentheses not yet closed after reading `toks`; a right
/// parenthesis with none open is ignored.
pub open spec fn opens<V>(toks: Seq<Token<V>>) -> nat
    decreases toks.len(),
{
    if toks.len() == 0 {
        0
    } else {
        let o = opens(toks.drop_last());
        match toks.last() {
            Token::LeftParen => o + 1,
            Token::RightParen => if o > 0 {
                (o - 1) as nat
            } else {
                0
            },
            _ => o,
        }
    }
}

pub open spec fn lparen_count<V>(st: Seq<Token<V>>) -> nat
    decreases st.len(),
{
    if st.len() == 0 {
        0
    } else {
        lparen_count(st.drop_last()) + if st.last() is LeftParen {
            1nat
        } else {
            0
        }
    }
}

/// The output queue never holds a parenthesis.
pub open spec fn queue_ok<V>(q: Seq<Token<V>>) -> bool {
    forall|i: int| 0 <= i < q.len() ==> is_value_tok(#[trigger] q[i])
}

/// The operator stack holds only operators and left parentheses.
pub open spec fn stack_ok<V>(st: Seq<Token<V>>) -> bool {
    forall|i: int| 0 <= i < st.len() ==> !((#[trigger] st[i]) is Number) && !(st[i] is RightParen)
}

proof fn lemma_lparen_count_push<V>(st: Seq<Token<V>>, t: Token<V>)
    ensures
        lparen_count(st.push(t)) == lparen_count(st) + if t is LeftParen {
            1nat
        } else {
            0nat
        },
{
    assert(st.push(t).drop_last() =~= st);
}

proof fn lemma_pop_ops_inv<V>(q: Seq<Token<V>>, st: Seq<Token<V>>, op: char)
    requires
        queue_ok(q),
        stack_ok(st),
    ensures
        queue_ok(pop_ops(q, st, op).0),
        stack_ok(pop_ops(q, st, op).1),
        lparen_count(pop_ops(q, st, op).1) == lparen_count(st),
        wf_ops(q) && wf_ops(st) ==> wf_ops(pop_ops(q, st, op).0) && wf_ops(pop_ops(q, st, op).1),
    decreases st.len(),
{
    if st.len() > 0 && st.last() is Operation {
        let top = st.last()->Operation_0;
        if prec(op) <= prec(top) && top != '(' {
            assert(stack_ok(st.drop_last()));
            assert(queue_ok(q.push(st.last())));
            assert(wf_ops(q) && wf_ops(st) ==> wf_ops(q.push(st.last())) && wf_ops(
                st.drop_last(),
            ));
            lemma_pop_ops_inv(q.push(st.last()), st.drop_last(), op);
        }
    }
}

proof fn lemma_pop_until_inv<V>(q: Seq<Token<V>>, st: Seq<Token<V>>)
    requires
        queue_ok(q),
        stack_ok(st),
    ensures
        queue_ok(pop_until_lparen(q, st).0),
        stack_ok(pop_until_lparen(q, st).1),
        lparen_count(pop_until_lparen(q, st).1) == if lparen_count(st) > 0 {
            (lparen_count(st) - 1) as nat
        } else {
            0nat
        },
        wf_ops(q) && wf_ops(st) ==> wf_ops(pop_until_lparen(q, st).0) && wf_ops(
            pop_until_lparen(q, st).1,
        ),
    decreases st.len(),
{
    if st.len() == 0 {
    } else if st.last() is LeftParen {
        assert(lparen_count(st) == lparen_count(st.drop_last()) + 1);
    } else {
        assert(stack_ok(st.drop_last()));
        assert(queue_ok(q.push(st.last())));
        assert(wf_ops(q) && wf_ops(st) ==> wf_ops(q.push(st.last())) && wf_ops(st.drop_last()));
        lemma_pop_until_inv(q.push(st.last()), st.drop_last());
    }
}

proof fn lemma_drain_inv<V>(q: Seq<Token<V>>, st: Seq<Token<V>>)
    requires
        queue_ok(q),
        stack_ok(st),
    ensures
        sy_drain(q, st) is Err <==> lparen_count(st) > 0,
        sy_drain(q, st) matches Ok(out) ==> queue_ok(out),
        sy_drain(q, st) matches Ok(out) ==> (wf_ops(q) && wf_ops(st) ==> wf_ops(out)),
    decreases st.len(),
{
    if st.len() == 0 {
    } else if st.last() is LeftParen {
    } else {
        assert(stack_ok(st.drop_last()));
        assert(queue_ok(q.push(st.last())));
        assert(wf_ops(q) && wf_ops(st) ==> wf_ops(q.push(st.last())) && wf_ops(st.drop_last()));
        lemma_drain_inv(q.push(st.last()), st.drop_last());
    }
}

proof fn lemma_sy_state_inv<V>(toks: Seq<Token<V>>)
    ensures
        queue_ok(sy_state(toks).0),
        stack_ok(sy_state(toks).1),
        lparen_count(sy_state(toks).1) == opens(toks),
        wf_ops(toks) ==> wf_ops(sy_state(toks).0) && wf_ops(sy_state(toks).1),
    decreases toks.len(),
{
    if toks.len() > 0 {
        lemma_sy_state_inv(toks.drop_last());
        let prev = sy_state(toks.drop_last());
        let t = toks.last();
        assert(wf_ops(toks) ==> wf_ops(toks.drop_last()) && is_wf_tok(t));
        match t {
            Token::Number(_) => {
                assert(queue_ok(prev.0.push(t)));
                assert(wf_ops(toks) ==> wf_ops(prev.0.push(t)));
            },
            Token::LeftParen => {
                assert(stack_ok(prev.1.push(t)));
                lemma_lparen_count_push(prev.1, t);
                assert(wf_ops(toks) ==> wf_ops(prev.1.push(t)));
            },
            Token::RightParen => {
                lemma_pop_until_inv(prev.0, prev.1);
            },
            Token::Operation(op) => {
                lemma_pop_ops_inv(prev.0, prev.1, op);
                let r = pop_ops(prev.0, prev.1, op);
                assert(stack_ok(r.1.push(t)));
                lemma_lparen_count_push(r.1, t);
                assert(wf_ops(toks) ==> wf_ops(r.1.push(t)));
            },
        }
    }
}

/// The conversion fails exactly when some left parenthesis is never
/// closed; in particular it succeeds on every sequence whose parentheses
/// balance.  A successful output holds no parenthesis, since the only
/// possible leftover on the operator stack, an unmatched left parenthesis,
/// fails the conversion instead; and its operators are the input's.
pub proof fn lemma_mismatched_iff_unclosed<V>(toks: Seq<Token<V>>)
    ensures
        sy_spec(toks) is Err <==> opens(toks) > 0,
        sy_spec(toks) matches Ok(out) ==> queue_ok(out),
        sy_spec(toks) matches Ok(out) ==> (wf_ops(toks) ==> wf_ops(out)),
{
    lemma_sy_state_inv(toks);
    lemma_drain_inv(sy_state(toks).0, sy_state(toks).1);
}

/// Reorders an infix token sequence into postfix order by the
/// shunting-yard algorithm: numbers keep their relative order, each
/// operator moves after the operands it applies to, parentheses are
/// consumed.  Fails with `MismatchedParentheses` exactly when a left
/// parenthesis is never closed.
pub fn shunting_yard<V: Copy>(tokens: Vec<Token<V>>) -> (r: Result<Vec<Token<V>>, ConvertError>)
    ensures
        sy_spec(tokens@) matches Ok(post) ==> r matches Ok(out) && out@ == post,
        sy_spec(tokens@) matches Err(e) ==> r matches Err(e2) && e2 == e,
        r matches Ok(out) ==> queue_ok(out@),
        r matches Ok(out) ==> (wf_ops(tokens@) ==> wf_ops(out@)),
{
    let ghost input = tokens@;
    let mut queue: Vec<Token<V>> = Vec::new();
    let mut stack: Vec<Token<V>> = Vec::new();
    let mut i: usize = 0;
    while i < tokens.len()
        invariant
            i <= input.len(),
            tokens@ == input,
            sy_state(input.take(i as int)) == (queue@, stack@),
        decreases input.len() - i,
    {
        let t = tokens[i];
        proof {
            assert(input.take(i as int + 1).drop_last() =~= input.take(i as int));
        }
        match t {
            Token::Number(_) => {
                queue.push(t);
            },
            Token::LeftParen => {
                stack.push(t);
            },
            Token::RightParen => {
                let ghost q0 = queue@;
                let ghost st0 = stack@;
                let mut matched = false;
                while !matched && stack.len() > 0
                    invariant
                        pop_until_lparen(q0, st0) == if matched {
                            (queue@, stack@)
                        } else {
                            pop_until_lparen(queue@, stack@)
                        },
                    decreases stack@.len(),
                {
                    let top = stack[stack.len() - 1];
                    match top {
                        Token::LeftParen => {
                            let _ = stack.pop();
                            matched = true;
                        },
                        _ => {
                            let popped = stack.pop().unwrap();
                            queue.push(popped);
                        },
                    }
                }
            },
            Token::Operation(op) => {
                let ghost q0 = queue@;
                let ghost st0 = stack@;
                let mut stop = false;
                while !stop && stack.len() > 0
                    invariant
                        pop_ops(q0, st0, op) == if stop {
                            (queue@, stack@)
                        } else {
                            pop_ops(queue@, stack@, op)
                        },
                    decreases stack@.len(), (if stop {
                        0int
                    } else {
                        1int
                    }),
                {
                    let top = stack[stack.len() - 1];
                    match top {
                        Token::Operation(top_op) => {
                            if precedence(op) <= precedence(top_op) && !(top_op == '(') {
                                let popped = stack.pop().unwrap();
                                queue.push(popped);
                            } else {
                                stop = true;
                            }
                        },
                        _ => {
                            stop = true;
                        },
                    }
                }
                stack.push(t);
            },
        }
        i = i + 1;
    }
    proof {
        assert(input.take(input.len() as int) =~= input);
        lemma_mismatched_iff_unclosed(input);
    }
    let ghost q1 = queue@;
    let ghost st1 = stack@;
    while stack.len() > 0
        invariant
            sy_drain(q1, st1) == sy_drain(queue@, stack@),
        decreases stack@.len(),
    {
        let popped = stack.pop().unwrap();
        match popped {
            Token::LeftParen => {
                return Err(ConvertError::MismatchedParentheses);
            },
            _ => {
                queue.push(popped);
            },
        }
    }
    Ok(queue)
}

} // verus!
