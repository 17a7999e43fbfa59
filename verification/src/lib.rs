//! A verified evaluator for infix arithmetic expressions.
//!
//! Three pure stages compose into a pipeline: a lexer turns text into
//! tokens, a shunting-yard pass reorders them into postfix notation, and a
//! stack evaluator reduces the postfix sequence to a single value.  The
//! numeric payload of a token is a type parameter: no stage ever reads it,
//! so the caller chooses the number type and supplies the two operations
//! the pipeline cannot do itself (turning a numeral into a number, and
//! applying an operator to two numbers) as closures.
//!
//! Three sharp edges are kept deliberately.  There is no unary minus: a
//! leading `-` becomes an ordinary operator token, and evaluation then
//! fails for want of a left operand.  A right parenthesis with no open
//! left one is silently ignored; only an unclosed left parenthesis is an
//! error.  And values left on the evaluation stack below the topmost one
//! are not flagged: the topmost value is the result.
#![verifier::loop_isolation(false)]

mod eval;
mod laws;
mod lexer;
mod pipeline;
mod postfix;
mod token;

pub use pipeline::CalcError;
pub use pipeline::convert_err;
pub use pipeline::eval_err;
pub use pipeline::evaluate_text;
pub use pipeline::lex_err;
pub use pipeline::parse_numbers;
pub use pipeline::parse_rel;
pub use pipeline::pipeline_shape;
pub use pipeline::pipeline_value;

pub use eval::EvalError;
pub use eval::eval_status;
pub use eval::evaluate;
pub use eval::stack_rel;
pub use eval::stack_run;
pub use eval::step_rel;
pub use laws::lemma_eval_status_rel;
pub use laws::lemma_pipeline_deterministic;
pub use laws::lemma_single_number;
pub use laws::lemma_single_number_pipeline;
pub use laws::lemma_single_number_shape;
pub use laws::lemma_stack_rel_deterministic;
pub use laws::lemma_sy_rel;

pub use postfix::ConvertError;
pub use postfix::lemma_mismatched_iff_unclosed;
pub use postfix::lparen_count;
pub use postfix::opens;
pub use postfix::pop_ops;
pub use postfix::pop_until_lparen;
pub use postfix::queue_ok;
pub use postfix::shunting_yard;
pub use postfix::stack_ok;
pub use postfix::sy_drain;
pub use postfix::sy_spec;
pub use postfix::sy_state;
pub use postfix::sy_step;

pub use lexer::LexError;
pub use lexer::clone_chars;
pub use lexer::digit_count;
pub use lexer::dot_count;
pub use lexer::flush;
pub use lexer::lemma_lex_spec_wf;
pub use lexer::lemma_lex_state_wf;
pub use lexer::lex_result_matches;
pub use lexer::lex_spec;
pub use lexer::lex_state;
pub use lexer::lex_step;
pub use lexer::sym_token;
pub use lexer::tok_view;
pub use lexer::tokenize;
pub use lexer::toks_view;
pub use lexer::valid_numeral;
pub use lexer::wf_lexed;
pub use lexer::wf_lexed_tok;
pub use token::Token;
pub use token::is_digit_char;
pub use token::is_numeral_char;
pub use token::is_op_char;
pub use token::is_sym_char;
pub use token::is_wf_tok;
pub use token::is_value_tok;
pub use token::prec;
pub use token::precedence;
pub use token::wf_ops;
pub use token::rel_shape;
pub use token::tok_rel;
