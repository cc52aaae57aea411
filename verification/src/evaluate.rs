//! Whole expressions: the tokenizer and the evaluator run over a text.

use crate::bigint::int_value;
use crate::calculator::{calc_finish, calc_step, initial, CalcView, Calculator, CalculatorError};
use crate::tokenizer::{
    lex_flush, lex_step, token_result_view, LexError, LexState, Token, TokenView, TokenizeError,
    Tokenizer, Value,
};
use vstd::prelude::*;

verus! {

/// The tokens of a sequence as mathematical values.
pub open spec fn token_views(tokens: Seq<Token>) -> Seq<TokenView> {
    tokens.map_values(|t: Token| t@)
}

/// The tokenizer run from `state` over `input`: the state it ends in and the
/// tokens it has returned, or the first error.
pub open spec fn lex_run(state: LexState, input: Seq<char>) -> Result<
    (LexState, Seq<TokenView>),
    LexError,
>
    decreases input.len(),
{
    if input.len() == 0 {
        Ok((state, Seq::empty()))
    } else {
        match lex_run(state, input.drop_last()) {
            Ok((before, tokens)) => {
                let step = lex_step(before, input.last());
                match step.out {
                    Ok(Some(token)) => Ok((step.next, tokens.push(token))),
                    Ok(None) => Ok((step.next, tokens)),
                    Err(e) => Err(e),
                }
            },
            Err(e) => Err(e),
        }
    }
}

/// The tokens of `input`: those that an idle tokenizer returns over the
/// characters of `input`, then the one that it has left at the end.
pub open spec fn tokens_of(input: Seq<char>) -> Result<Seq<TokenView>, LexError> {
    match lex_run(LexState::Idle, input) {
        Ok((state, tokens)) => match lex_flush(state) {
            Ok(Some(token)) => Ok(tokens.push(token)),
            Ok(None) => Ok(tokens),
            Err(e) => Err(e),
        },
        Err(e) => Err(e),
    }
}

/// The first error ends the run: a prefix of the input on which the tokenizer
/// fails makes it fail on the whole input, with the same error.
pub proof fn lemma_lex_run_error_is_final(state: LexState, input: Seq<char>, k: int)
    requires
        0 <= k <= input.len(),
        lex_run(state, input.take(k)) is Err,
    ensures
        lex_run(state, input) == lex_run(state, input.take(k)),
    decreases input.len() - k,
{
    if k == input.len() {
        assert(input.take(k) =~= input);
    } else {
        assert(input.take(k + 1).drop_last() =~= input.take(k));
        lemma_lex_run_error_is_final(state, input, k + 1);
    }
}

/// Splits `expr` into its tokens.
pub fn tokenize(expr: &str) -> (res: Result<Vec<Token>, TokenizeError>)
    ensures
        match tokens_of(expr@) {
            Ok(tokens) => res is Ok && token_views(res->Ok_0@) == tokens,
            Err(e) => res is Err && res->Err_0@ == e,
        },
{
    let mut tokens: Vec<Token> = Vec::new();
    let mut tokenizer = Tokenizer::default();
    assert(token_views(tokens@) =~= Seq::empty());
    assert(expr@.take(0) =~= Seq::empty());
    for c in it: expr.chars()
        invariant
            it.seq() == expr@,
            lex_run(LexState::Idle, expr@.take(it.index() as int)) == Ok::<
                (LexState, Seq<TokenView>),
                LexError,
            >((tokenizer@, token_views(tokens@))),
    {
        proof {
            let read = expr@.take(it.index() + 1);
            assert(read.drop_last() =~= expr@.take(it.index() as int));
            assert(read.last() == c);
        }
        let ghost before = tokens@;
        match tokenizer.update(c) {
            Ok(Some(token)) => {
                tokens.push(token);
                assert(token_views(tokens@) =~= token_views(before).push(token@));
            },
            Ok(None) => {},
            Err(e) => {
                proof {
                    lemma_lex_run_error_is_final(LexState::Idle, expr@, it.index() + 1);
                }
                return Err(e);
            },
        }
    }
    assert(expr@.take(expr@.len() as int) =~= expr@);
    let ghost before = tokens@;
    match tokenizer.finalize() {
        Ok(Some(token)) => {
            tokens.push(token);
            assert(token_views(tokens@) =~= token_views(before).push(token@));
            Ok(tokens)
        },
        Ok(None) => Ok(tokens),
        Err(e) => Err(e),
    }
}

/// The evaluator run from `calc` over `tokens`: the evaluator afterwards, or
/// the first error.
pub open spec fn calc_run(calc: CalcView, tokens: Seq<TokenView>) -> Result<
    CalcView,
    CalculatorError,
>
    decreases tokens.len(),
{
    if tokens.len() == 0 {
        Ok(calc)
    } else {
        match calc_run(calc, tokens.drop_last()) {
            Ok(before) => calc_step(before, tokens.last()),
            Err(e) => Err(e),
        }
    }
}

/// The value of a token sequence: a new evaluator is fed the tokens, then
/// the end.
pub open spec fn value_of_tokens(tokens: Seq<TokenView>) -> Result<int, CalculatorError> {
    match calc_run(initial(), tokens) {
        Ok(calc) => calc_finish(calc),
        Err(e) => Err(e),
    }
}

/// Evaluates a token sequence.
pub fn calculate(tokens: Vec<Token>) -> (res: Result<Value, CalculatorError>)
    ensures
        match value_of_tokens(token_views(tokens@)) {
            Ok(value) => res is Ok && int_value(res->Ok_0) == value,
            Err(e) => res == Err::<Value, CalculatorError>(e),
        },
{
    let mut calculator = Calculator::default();
    let ghost all = token_views(tokens@);
    assert(all.take(0) =~= Seq::empty());
    for token in it: tokens
        invariant
            it.seq() == tokens@,
            all == token_views(tokens@),
            calc_run(initial(), all.take(it.index() as int)) == Ok::<CalcView, CalculatorError>(
                calculator@,
            ),
    {
        proof {
            let read = all.take(it.index() + 1);
            assert(read.drop_last() =~= all.take(it.index() as int));
            assert(read.last() == token@);
        }
        match calculator.handle_token(token) {
            Ok(()) => {},
            Err(e) => {
                proof {
                    lemma_calc_run_error_is_final(initial(), all, it.index() + 1);
                }
                return Err(e);
            },
        }
    }
    assert(all.take(all.len() as int) =~= all);
    calculator.finalize()
}

/// The first error ends the run: a prefix of the tokens on which the
/// evaluator fails makes it fail on all the tokens, with the same error.
pub proof fn lemma_calc_run_error_is_final(calc: CalcView, tokens: Seq<TokenView>, k: int)
    requires
        0 <= k <= tokens.len(),
        calc_run(calc, tokens.take(k)) is Err,
    ensures
        calc_run(calc, tokens) == calc_run(calc, tokens.take(k)),
    decreases tokens.len() - k,
{
    if k == tokens.len() {
        assert(tokens.take(k) =~= tokens);
    } else {
        assert(tokens.take(k + 1).drop_last() =~= tokens.take(k));
        lemma_calc_run_error_is_final(calc, tokens, k + 1);
    }
}

/// Why an expression has no value.
#[derive(Debug, PartialEq, Eq)]
pub enum EvalError {
    /// The text is no token sequence.
    Tokenize(TokenizeError),
    /// The tokens are no expression, or the expression has no value.
    Calculate(CalculatorError),
}

/// An evaluation error as a mathematical value.
pub enum EvalErrorView {
    Tokenize(LexError),
    Calculate(CalculatorError),
}

impl View for EvalError {
    type V = EvalErrorView;

    open spec fn view(&self) -> EvalErrorView {
        match *self {
            EvalError::Tokenize(e) => EvalErrorView::Tokenize(e@),
            EvalError::Calculate(e) => EvalErrorView::Calculate(e),
        }
    }
}

/// Hands the evaluator what one call of the tokenizer returned: the
/// evaluator afterwards, or the error of either.
pub open spec fn feed(calc: CalcView, out: Result<Option<TokenView>, LexError>) -> Result<
    CalcView,
    EvalErrorView,
> {
    match out {
        Ok(Some(token)) => match calc_step(calc, token) {
            Ok(next) => Ok(next),
            Err(e) => Err(EvalErrorView::Calculate(e)),
        },
        Ok(None) => Ok(calc),
        Err(e) => Err(EvalErrorView::Tokenize(e)),
    }
}

/// An idle tokenizer and a new evaluator run over `input`, each token handed
/// to the evaluator as soon as the tokenizer returns it: the two states
/// afterwards, or the first error.
pub open spec fn eval_run(input: Seq<char>) -> Result<(LexState, CalcView), EvalErrorView>
    decreases input.len(),
{
    if input.len() == 0 {
        Ok((LexState::Idle, initial()))
    } else {
        match eval_run(input.drop_last()) {
            Ok((lex, calc)) => {
                let step = lex_step(lex, input.last());
                match feed(calc, step.out) {
                    Ok(next) => Ok((step.next, next)),
                    Err(e) => Err(e),
                }
            },
            Err(e) => Err(e),
        }
    }
}

/// The value of the expression `input`: the tokenizer and the evaluator are
/// run over its characters, the token that the tokenizer has left at the end
/// is handed over, and the evaluator is asked for the value.
pub open spec fn value_of(input: Seq<char>) -> Result<int, EvalErrorView> {
    match eval_run(input) {
        Ok((lex, calc)) => match feed(calc, lex_flush(lex)) {
            Ok(last) => match calc_finish(last) {
                Ok(value) => Ok(value),
                Err(e) => Err(EvalErrorView::Calculate(e)),
            },
            Err(e) => Err(e),
        },
        Err(e) => Err(e),
    }
}

/// The first error ends the run: a prefix of the input on which the run
/// fails makes it fail on the whole input, with the same error.
pub proof fn lemma_eval_run_error_is_final(input: Seq<char>, k: int)
    requires
        0 <= k <= input.len(),
        eval_run(input.take(k)) is Err,
    ensures
        eval_run(input) == eval_run(input.take(k)),
    decreases input.len() - k,
{
    if k == input.len() {
        assert(input.take(k) =~= input);
    } else {
        assert(input.take(k + 1).drop_last() =~= input.take(k));
        lemma_eval_run_error_is_final(input, k + 1);
    }
}

/// Hands `calculator` what a call of the tokenizer returned.
fn feed_token(calculator: &mut Calculator, out: Result<Option<Token>, TokenizeError>) -> (res:
    Result<(), EvalError>)
    ensures
        match feed(old(calculator)@, token_result_view(out)) {
            Ok(next) => res is Ok && final(calculator)@ == next,
            Err(e) => res is Err && res->Err_0@ == e,
        },
{
    match out {
        Ok(Some(token)) => match calculator.handle_token(token) {
            Ok(()) => Ok(()),
            Err(e) => Err(EvalError::Calculate(e)),
        },
        Ok(None) => Ok(()),
        Err(e) => Err(EvalError::Tokenize(e)),
    }
}

/// Evaluates the expression `expr`.
///
/// The first error, of the tokenizer or of the evaluator, ends the
/// evaluation.
pub fn evaluate(expr: &str) -> (res: Result<Value, EvalError>)
    ensures
        match value_of(expr@) {
            Ok(value) => res is Ok && int_value(res->Ok_0) == value,
            Err(e) => res is Err && res->Err_0@ == e,
        },
{
    let mut tokenizer = Tokenizer::default();
    let mut calculator = Calculator::default();
    assert(expr@.take(0) =~= Seq::empty());
    for c in it: expr.chars()
        invariant
            it.seq() == expr@,
            eval_run(expr@.take(it.index() as int)) == Ok::<(LexState, CalcView), EvalErrorView>(
                (tokenizer@, calculator@),
            ),
    {
        proof {
            let read = expr@.take(it.index() + 1);
            assert(read.drop_last() =~= expr@.take(it.index() as int));
            assert(read.last() == c);
        }
        let out = tokenizer.update(c);
        match feed_token(&mut calculator, out) {
            Ok(()) => {},
            Err(e) => {
                proof {
                    lemma_eval_run_error_is_final(expr@, it.index() + 1);
                }
                return Err(e);
            },
        }
    }
    assert(expr@.take(expr@.len() as int) =~= expr@);
    let out = tokenizer.finalize();
    match feed_token(&mut calculator, out) {
        Ok(()) => {},
        Err(e) => {
            return Err(e);
        },
    }
    match calculator.finalize() {
        Ok(value) => Ok(value),
        Err(e) => Err(EvalError::Calculate(e)),
    }
}

} // verus!
