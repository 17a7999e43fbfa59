use vstd::prelude::*;
use crate::token::Token;
use crate::token::prec;
use crate::token::rel_shape;
use crate::token::tok_rel;
use crate::eval::EvalError;
use crate::eval::eval_status;
use crate::eval::stack_rel;
use crate::eval::stack_run;
use crate::eval::step_rel;
use crate::postfix::ConvertError;
use crate::postfix::pop_ops;
use crate::postfix::pop_until_lparen;
use crate::postfix::sy_drain;
use crate::postfix::sy_spec;
use crate::postfix::sy_state;
use crate::lexer::LexError;
use crate::lexer::flush;
use crate::lexer::lex_spec;
use crate::lexer::lex_state;
use crate::lexer::valid_numeral;
use crate::pipeline::CalcError;
use crate::pipeline::parse_rel;
use crate::pipeline::pipeline_shape;
use crate::pipeline::pipeline_value;
use crate::token::is_numeral_char;

verus! {

proof fn lemma_rel_shape_push<A, B>(
    a: Seq<Token<A>>,
    b: Seq<Token<B>>,
    ta: Token<A>,
    tb: Token<B>,
    r: spec_fn(A, B) -> bool,
)
    requires
        rel_shape(a, b, r),
        tok_rel(ta, tb, r),
    ensures
        rel_shape(a.push(ta), b.push(tb), r),
{
    assert forall|i: int| 0 <= i < a.len() + 1 implies tok_rel(
        #[trigger] a.push(ta)[i],
        #[trigger] b.push(tb)[i],
        r,
    ) by {
        if i < a.len() {
            assert(tok_rel(a[i], b[i], r));
        }
    }
}

proof fn lemma_rel_shape_drop<A, B>(a: Seq<Token<A>>, b: Seq<Token<B>>, r: spec_fn(A, B) -> bool)
    requires
        rel_shape(a, b, r),
        a.len() > 0,
    ensures
        rel_shape(a.drop_last(), b.drop_last(), r),
        tok_rel(a.last(), b.last(), r),
{
    assert(tok_rel(a[a.len() - 1], b[b.len() - 1], r));
    assert forall|i: int| 0 <= i < a.len() - 1 implies tok_rel(
        #[trigger] a.drop_last()[i],
        #[trigger] b.drop_last()[i],
        r,
    ) by {
        assert(tok_rel(a[i], b[i], r));
    }
}

/// Whether a postfix sequence evaluates, and to which error it fails, goes
/// by the shape of its tokens alone.
pub proof fn lemma_eval_status_rel<A, B>(
    a: Seq<Token<A>>,
    b: Seq<Token<B>>,
    r: spec_fn(A, B) -> bool,
)
    requires
        rel_shape(a, b, r),
    ensures
        eval_status(a) == eval_status(b),
    decreases a.len(),
{
    if a.len() > 0 {
        lemma_rel_shape_drop(a, b, r);
        lemma_eval_status_rel(a.drop_last(), b.drop_last(), r);
    }
}

proof fn lemma_pop_ops_rel<A, B>(
    qa: Seq<Token<A>>,
    sta: Seq<Token<A>>,
    qb: Seq<Token<B>>,
    stb: Seq<Token<B>>,
    op: char,
    r: spec_fn(A, B) -> bool,
)
    requires
        rel_shape(qa, qb, r),
        rel_shape(sta, stb, r),
    ensures
        rel_shape(pop_ops(qa, sta, op).0, pop_ops(qb, stb, op).0, r),
        rel_shape(pop_ops(qa, sta, op).1, pop_ops(qb, stb, op).1, r),
    decreases sta.len(),
{
    if sta.len() > 0 {
        lemma_rel_shape_drop(sta, stb, r);
        if sta.last() is Operation {
            let top = sta.last()->Operation_0;
            assert(stb.last() == Token::<B>::Operation(top));
            if prec(op) <= prec(top) && top != '(' {
                lemma_rel_shape_push(qa, qb, sta.last(), stb.last(), r);
                lemma_pop_ops_rel(qa.push(sta.last()), sta.drop_last(), qb.push(stb.last()), stb.drop_last(), op, r);
            }
        }
    }
}

proof fn lemma_pop_until_rel<A, B>(
    qa: Seq<Token<A>>,
    sta: Seq<Token<A>>,
    qb: Seq<Token<B>>,
    stb: Seq<Token<B>>,
    r: spec_fn(A, B) -> bool,
)
    requires
        rel_shape(qa, qb, r),
        rel_shape(sta, stb, r),
    ensures
        rel_shape(pop_until_lparen(qa, sta).0, pop_until_lparen(qb, stb).0, r),
        rel_shape(pop_until_lparen(qa, sta).1, pop_until_lparen(qb, stb).1, r),
    decreases sta.len(),
{
    if sta.len() > 0 {
        lemma_rel_shape_drop(sta, stb, r);
        if !(sta.last() is LeftParen) {
            lemma_rel_shape_push(qa, qb, sta.last(), stb.last(), r);
            lemma_pop_until_rel(qa.push(sta.last()), sta.drop_last(), qb.push(stb.last()), stb.drop_last(), r);
        }
    }
}

proof fn lemma_sy_state_rel<A, B>(a: Seq<Token<A>>, b: Seq<Token<B>>, r: spec_fn(A, B) -> bool)
    requires
        rel_shape(a, b, r),
    ensures
        rel_shape(sy_state(a).0, sy_state(b).0, r),
        rel_shape(sy_state(a).1, sy_state(b).1, r),
    decreases a.len(),
{
    if a.len() > 0 {
        lemma_rel_shape_drop(a, b, r);
        lemma_sy_state_rel(a.drop_last(), b.drop_last(), r);
        let pa = sy_state(a.drop_last());
        let pb = sy_state(b.drop_last());
        match a.last() {
            Token::Number(_) => {
                lemma_rel_shape_push(pa.0, pb.0, a.last(), b.last(), r);
            },
            Token::LeftParen => {
                lemma_rel_shape_push(pa.1, pb.1, a.last(), b.last(), r);
            },
            Token::RightParen => {
                lemma_pop_until_rel(pa.0, pa.1, pb.0, pb.1, r);
            },
            Token::Operation(op) => {
                lemma_pop_ops_rel(pa.0, pa.1, pb.0, pb.1, op, r);
                lemma_rel_shape_push(
                    pop_ops(pa.0, pa.1, op).1,
                    pop_ops(pb.0, pb.1, op).1,
                    a.last(),
                    b.last(),
                    r,
                );
            },
        }
    }
}

proof fn lemma_drain_rel<A, B>(
    qa: Seq<Token<A>>,
    sta: Seq<Token<A>>,
    qb: Seq<Token<B>>,
    stb: Seq<Token<B>>,
    r: spec_fn(A, B) -> bool,
)
    requires
        rel_shape(qa, qb, r),
        rel_shape(sta, stb, r),
    ensures
        sy_drain(qa, sta) is Err <==> sy_drain(qb, stb) is Err,
        sy_drain(qa, sta) matches Ok(outa) ==> sy_drain(qb, stb) matches Ok(outb) && rel_shape(
            outa,
            outb,
            r,
        ),
    decreases sta.len(),
{
    if sta.len() > 0 {
        lemma_rel_shape_drop(sta, stb, r);
        if !(sta.last() is LeftParen) {
            lemma_rel_shape_push(qa, qb, sta.last(), stb.last(), r);
            lemma_drain_rel(qa.push(sta.last()), sta.drop_last(), qb.push(stb.last()), stb.drop_last(), r);
        }
    }
}

/// The conversion to postfix goes by the shape of the tokens alone:
/// sequences that correspond pointwise convert to pointwise-corresponding
/// postfix sequences, or fail alike.
pub proof fn lemma_sy_rel<A, B>(a: Seq<Token<A>>, b: Seq<Token<B>>, r: spec_fn(A, B) -> bool)
    requires
        rel_shape(a, b, r),
    ensures
        sy_spec(a) is Err <==> sy_spec(b) is Err,
        sy_spec(a) matches Ok(outa) ==> sy_spec(b) matches Ok(outb) && rel_shape(outa, outb, r),
{
    lemma_sy_state_rel(a, b, r);
    lemma_drain_rel(sy_state(a).0, sy_state(a).1, sy_state(b).0, sy_state(b).1, r);
}

proof fn lemma_stack_run_prefix_eq<V, F: Fn(char, V, V) -> V>(
    apply: F,
    toks: Seq<Token<V>>,
    h1: Seq<Seq<V>>,
    h2: Seq<Seq<V>>,
    n: int,
)
    requires
        forall|x: (char, V, V), r1: V, r2: V|
            call_ensures(apply, x, r1) && call_ensures(apply, x, r2) ==> r1 == r2,
        stack_run(apply, toks, h1),
        stack_run(apply, toks, h2),
        0 <= n <= toks.len(),
    ensures
        h1[n] == h2[n],
    decreases n,
{
    if n > 0 {
        lemma_stack_run_prefix_eq(apply, toks, h1, h2, n - 1);
        assert(step_rel(apply, h1[n - 1], toks[n - 1], h1[n]));
        assert(step_rel(apply, h2[n - 1], toks[n - 1], h2[n]));
        let p = h1[n - 1];
        match toks[n - 1] {
            Token::Number(_) => {},
            Token::Operation(op) => {
                let r1 = choose|res: V|
                    call_ensures(apply, (op, p[p.len() - 2], p[p.len() - 1]), res) && h1[n]
                        == p.drop_last().drop_last().push(res);
                let r2 = choose|res: V|
                    call_ensures(apply, (op, p[p.len() - 2], p[p.len() - 1]), res) && h2[n]
                        == p.drop_last().drop_last().push(res);
                assert(r1 == r2);
            },
            _ => {},
        }
    }
}

/// Evaluation is deterministic: when `apply` can return only one value for
/// given operands, a postfix sequence can reach only one final stack, so
/// running the evaluation twice yields the same result.
pub proof fn lemma_stack_rel_deterministic<V, F: Fn(char, V, V) -> V>(
    apply: F,
    toks: Seq<Token<V>>,
    s1: Seq<V>,
    s2: Seq<V>,
)
    requires
        forall|x: (char, V, V), r1: V, r2: V|
            call_ensures(apply, x, r1) && call_ensures(apply, x, r2) ==> r1 == r2,
        stack_rel(apply, toks, s1),
        stack_rel(apply, toks, s2),
    ensures
        s1 == s2,
{
    let h1 = choose|h: Seq<Seq<V>>| (#[trigger] stack_run(apply, toks, h)) && s1 == h.last();
    let h2 = choose|h: Seq<Seq<V>>| (#[trigger] stack_run(apply, toks, h)) && s2 == h.last();
    lemma_stack_run_prefix_eq(apply, toks, h1, h2, toks.len() as int);
}

/// With a functional relation, pointwise correspondence determines the
/// second sequence.
proof fn lemma_rel_shape_functional<A, B>(
    a: Seq<Token<A>>,
    b1: Seq<Token<B>>,
    b2: Seq<Token<B>>,
    r: spec_fn(A, B) -> bool,
)
    requires
        forall|x: A, y1: B, y2: B| #[trigger] r(x, y1) && #[trigger] r(x, y2) ==> y1 == y2,
        rel_shape(a, b1, r),
        rel_shape(a, b2, r),
    ensures
        b1 == b2,
{
    assert forall|i: int| 0 <= i < b1.len() implies b1[i] == b2[i] by {
        assert(tok_rel(a[i], b1[i], r));
        assert(tok_rel(a[i], b2[i], r));
        match a[i] {
            Token::Number(x) => {
                assert(r(x, b1[i]->Number_0) && r(x, b2[i]->Number_0));
            },
            _ => {},
        }
    }
    assert(b1 =~= b2);
}

/// Running the pipeline twice on the same text yields the same outcome:
/// the error and the postfix shape are spec functions of the input, and
/// when `parse` is settled by the numeral text and `apply` by its operands,
/// so is the returned value.
pub proof fn lemma_pipeline_deterministic<V, FP: Fn(Vec<char>) -> V, FA: Fn(char, V, V) -> V>(
    input: Seq<char>,
    parse: FP,
    apply: FA,
    v1: V,
    v2: V,
)
    requires
        forall|b1: Vec<char>, b2: Vec<char>, y1: V, y2: V|
            b1@ == b2@ && #[trigger] call_ensures(parse, (b1,), y1) && #[trigger] call_ensures(
                parse,
                (b2,),
                y2,
            ) ==> y1 == y2,
        forall|x: (char, V, V), r1: V, r2: V|
            call_ensures(apply, x, r1) && call_ensures(apply, x, r2) ==> r1 == r2,
        crate::pipeline::pipeline_value(input, parse, apply, v1),
        crate::pipeline::pipeline_value(input, parse, apply, v2),
    ensures
        v1 == v2,
{
    let post = crate::pipeline::pipeline_shape(input)->Ok_0;
    let r = crate::pipeline::parse_rel(parse);
    assert forall|x: Seq<char>, y1: V, y2: V| #[trigger] r(x, y1) && #[trigger] r(
        x,
        y2,
    ) implies y1 == y2 by {
        let b1 = choose|buf: Vec<char>| buf@ == x && #[trigger] call_ensures(parse, (buf,), y1);
        let b2 = choose|buf: Vec<char>| buf@ == x && #[trigger] call_ensures(parse, (buf,), y2);
        assert(b1@ == b2@ && call_ensures(parse, (b1,), y1) && call_ensures(parse, (b2,), y2));
    }
    let (ts1, s1) = choose|ts: Seq<Token<V>>, s: Seq<V>|
        rel_shape(post, ts, r) && (#[trigger] stack_rel(apply, ts, s)) && s.len() >= 1 && v1
            == s.last();
    let (ts2, s2) = choose|ts: Seq<Token<V>>, s: Seq<V>|
        rel_shape(post, ts, r) && (#[trigger] stack_rel(apply, ts, s)) && s.len() >= 1 && v2
            == s.last();
    lemma_rel_shape_functional(post, ts1, ts2, r);
    lemma_stack_rel_deterministic(apply, ts1, s1, s2);
}

/// A single number converts to itself alone and evaluates to one value.
pub proof fn lemma_single_number_shape<V>(t: Token<V>)
    requires
        t is Number,
    ensures
        sy_spec(seq![t]) == Ok::<Seq<Token<V>>, ConvertError>(seq![t]),
        eval_status(seq![t]) == Ok::<nat, EvalError>(1nat),
{
    let one = seq![t];
    assert(one.drop_last() =~= Seq::<Token<V>>::empty());
    assert(sy_state(one.drop_last()) == (Seq::<Token<V>>::empty(), Seq::<Token<V>>::empty()));
    assert(sy_state(one).0 =~= one);
    assert(sy_state(one).1 =~= Seq::<Token<V>>::empty());
    assert(sy_spec(one) == Ok::<Seq<Token<V>>, ConvertError>(sy_state(one).0));
    assert(eval_status(one.drop_last()) == Ok::<nat, EvalError>(0nat));
    assert(one.last() == t);
    assert(eval_status(one) == Ok::<nat, EvalError>(1nat));
}

/// A single number converts to itself alone, evaluates, and evaluating it
/// can only yield its own value: the pipeline returns it unchanged.
pub proof fn lemma_single_number<V, F: Fn(char, V, V) -> V>(apply: F, t: Token<V>)
    requires
        t is Number,
    ensures
        sy_spec(seq![t]) == Ok::<Seq<Token<V>>, ConvertError>(seq![t]),
        eval_status(seq![t]) == Ok::<nat, EvalError>(1nat),
        forall|s: Seq<V>| stack_rel(apply, seq![t], s) <==> s =~= seq![t->Number_0],
{
    lemma_single_number_shape(t);
    let one = seq![t];
    let x = t->Number_0;
    assert forall|s: Seq<V>| stack_rel(apply, one, s) <==> s =~= seq![x] by {
        if stack_rel(apply, one, s) {
            let h = choose|h: Seq<Seq<V>>| (#[trigger] stack_run(apply, one, h)) && s == h.last();
            assert(step_rel(apply, h[0], one[0], h[1]));
            assert(h[1] == h[0].push(x));
            assert(s =~= seq![x]);
        }
        if s =~= seq![x] {
            let h = seq![Seq::<V>::empty(), seq![x]];
            assert(h[1] =~= h[0].push(x));
            assert(step_rel(apply, h[0], one[0], h[1]));
            assert(stack_run(apply, one, h));
            assert(s == h.last());
            assert(stack_rel(apply, one, s));
        }
    }
}


/// A line that is one numeral lexes to that single number token.
proof fn lemma_lex_state_numeral(input: Seq<char>)
    requires
        forall|i: int| 0 <= i < input.len() ==> is_numeral_char(#[trigger] input[i]),
    ensures
        lex_state(input) == Some((Seq::<Token<Seq<char>>>::empty(), input)),
    decreases input.len(),
{
    if input.len() == 0 {
        assert(input =~= Seq::<char>::empty());
    } else {
        assert(forall|i: int|
            0 <= i < input.drop_last().len() ==> is_numeral_char(
                #[trigger] input.drop_last()[i],
            ));
        lemma_lex_state_numeral(input.drop_last());
        assert(is_numeral_char(input.last()));
        assert(input.drop_last().push(input.last()) =~= input);
    }
}

/// A valid single-number input runs through the pipeline unchanged: it
/// lexes to one number token, that token is the whole postfix sequence,
/// and the pipeline can return exactly the values that `parse` gives for
/// the numeral.
pub proof fn lemma_single_number_pipeline<V, FP: Fn(Vec<char>) -> V, FA: Fn(char, V, V) -> V>(
    input: Seq<char>,
    parse: FP,
    apply: FA,
)
    requires
        input.len() > 0,
        forall|i: int| 0 <= i < input.len() ==> is_numeral_char(#[trigger] input[i]),
        valid_numeral(input),
    ensures
        lex_spec(input) == Ok::<Seq<Token<Seq<char>>>, LexError>(
            seq![Token::<Seq<char>>::Number(input)],
        ),
        pipeline_shape(input) == Ok::<Seq<Token<Seq<char>>>, CalcError>(
            seq![Token::<Seq<char>>::Number(input)],
        ),
        forall|v: V| pipeline_value(input, parse, apply, v) <==> parse_rel(parse)(input, v),
{
    let t = Token::<Seq<char>>::Number(input);
    let one = seq![t];
    lemma_lex_state_numeral(input);
    assert(flush(Seq::<Token<Seq<char>>>::empty(), input) =~= one);
    assert(lex_spec(input) == Ok::<Seq<Token<Seq<char>>>, LexError>(one));
    lemma_single_number_shape(t);
    assert(pipeline_shape(input) == Ok::<Seq<Token<Seq<char>>>, CalcError>(one));
    let r = parse_rel(parse);
    assert forall|v: V| pipeline_value(input, parse, apply, v) <==> r(input, v) by {
        if pipeline_value(input, parse, apply, v) {
            let (ts, s) = choose|ts: Seq<Token<V>>, s: Seq<V>|
                rel_shape(one, ts, r) && (#[trigger] stack_rel(apply, ts, s)) && s.len() >= 1 && v
                    == s.last();
            assert(tok_rel(one[0], ts[0], r));
            let y = ts[0]->Number_0;
            assert(ts =~= seq![Token::<V>::Number(y)]);
            lemma_single_number(apply, ts[0]);
            assert(s =~= seq![y]);
            assert(r(input, v));
        }
        if r(input, v) {
            let ts = seq![Token::<V>::Number(v)];
            let s = seq![v];
            assert forall|i: int| 0 <= i < one.len() implies tok_rel(
                #[trigger] one[i],
                #[trigger] ts[i],
                r,
            ) by {
                assert(r(input, v));
            }
            assert(rel_shape(one, ts, r));
            lemma_single_number(apply, ts[0]);
            assert(ts[0] == Token::<V>::Number(v));
            assert(ts =~= seq![ts[0]]);
            assert(stack_rel(apply, ts, s));
            assert(s.len() >= 1 && v == s.last());
            assert(pipeline_value(input, parse, apply, v));
        }
    }
}

} // verus!
