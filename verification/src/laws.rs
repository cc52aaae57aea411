//! What holds of the tokenizer and the evaluator on every input.

use crate::calculator::{
    apply, calc_finish, calc_step, close_group, drain, fold_pending, initial, priority_of,
    CalcState, CalcView, CalculatorError, Entry,
};
use crate::evaluate::{
    calc_run, eval_run, lex_run, tokens_of, value_of, value_of_tokens, EvalErrorView,
};
use crate::tokenizer::{
    begin_state, digit_of, is_space, lex_flush, lex_step, LexError, LexState, Operator, TokenView,
};
use vstd::prelude::*;

verus! {

/// The character that writes the digit `d`, for `d` from 0 to 9.
pub open spec fn digit_char(d: nat) -> char
    recommends
        d < 10,
{
    ('0' as u32 + d) as char
}

/// The decimal writing of `n`: no sign, no prefix, and no leading zero but
/// for zero itself.
pub open spec fn decimal(n: nat) -> Seq<char>
    decreases n,
{
    if n < 10 {
        seq![digit_char(n)]
    } else {
        decimal(n / 10).push(digit_char(n % 10))
    }
}

/// The decimal digit characters are the ten from `'0'` on, in order.
proof fn lemma_digit_char(d: nat)
    requires
        d < 10,
    ensures
        digit_char(d) as u32 == '0' as u32 + d,
        '0' <= digit_char(d) && digit_char(d) <= '9',
        digit_of(digit_char(d)) == Some(d as u32),
        digit_char(d) != 'x',
        digit_char(d) != 'b',
{
}

/// Over the decimal writing of a positive number the tokenizer returns
/// nothing yet and holds the number, read in radix ten.
proof fn lemma_lex_run_decimal(n: nat)
    requires
        n > 0,
    ensures
        lex_run(LexState::Idle, decimal(n)) == Ok::<(LexState, Seq<TokenView>), LexError>(
            (LexState::InNumber { value: n as int, radix: 10 }, Seq::empty()),
        ),
    decreases n,
{
    let text = decimal(n);
    if n < 10 {
        lemma_digit_char(n);
        assert(text.drop_last() =~= Seq::empty());
        assert(text.last() == digit_char(n));
        assert(lex_run(LexState::Idle, text.drop_last()) == Ok::<
            (LexState, Seq<TokenView>),
            LexError,
        >((LexState::Idle, Seq::empty())));
        assert(begin_state(digit_char(n)) == (LexState::InNumber { value: n as int, radix: 10 }));
    } else {
        lemma_lex_run_decimal(n / 10);
        lemma_digit_char(n % 10);
        assert(text.drop_last() =~= decimal(n / 10));
        assert(text.last() == digit_char(n % 10));
        assert((n / 10) * 10 + n % 10 == n);
    }
}

/// A number written in decimal reads back as itself: the tokens of the
/// decimal writing of `n` are the one number token that holds `n`.
pub proof fn lemma_decimal_round_trip(n: nat)
    ensures
        tokens_of(decimal(n)) == Ok::<Seq<TokenView>, LexError>(seq![TokenView::Val(n as int)]),
{
    if n == 0 {
        let text = decimal(0);
        lemma_digit_char(0);
        assert(text.drop_last() =~= Seq::empty());
        assert(text.last() == '0');
        assert(lex_run(LexState::Idle, text.drop_last()) == Ok::<
            (LexState, Seq<TokenView>),
            LexError,
        >((LexState::Idle, Seq::empty())));
        assert(lex_run(LexState::Idle, text) == Ok::<(LexState, Seq<TokenView>), LexError>(
            (LexState::InNumber { value: 0, radix: 8 }, Seq::empty()),
        ));
        assert(Seq::<TokenView>::empty().push(TokenView::Val(0)) =~= seq![TokenView::Val(0)]);
    } else {
        lemma_lex_run_decimal(n);
        assert(Seq::<TokenView>::empty().push(TokenView::Val(n as int)) =~= seq![
            TokenView::Val(n as int),
        ]);
    }
}

/// The character that writes the digit `d` of a radix up to 16: a decimal
/// digit, or a lower-case letter from `'a'` on for ten and above.
pub open spec fn numeral_char(d: nat) -> char
    recommends
        d < 16,
{
    if d < 10 {
        ('0' as u32 + d) as char
    } else {
        ('a' as u32 + d - 10) as char
    }
}

/// The digits of `n` in `radix`, the most significant first, with no leading
/// zero but for zero itself.
pub open spec fn numeral(n: nat, radix: nat) -> Seq<char>
    decreases n,
{
    if radix < 2 || n < radix {
        seq![numeral_char(n)]
    } else {
        proof {
            vstd::arithmetic::div_mod::lemma_div_decreases(n as int, radix as int);
        }
        numeral(n / radix, radix).push(numeral_char(n % radix))
    }
}

/// The prefix that announces a radix: `0x` for 16, `0b` for 2, a zero for 8.
pub open spec fn radix_prefix(radix: nat) -> Seq<char> {
    if radix == 16 {
        seq!['0', 'x']
    } else if radix == 2 {
        seq!['0', 'b']
    } else {
        seq!['0']
    }
}

/// A digit character of a radix up to 16 is a digit of that value, and is
/// not the letter `x`.
proof fn lemma_numeral_char(d: nat)
    requires
        d < 16,
    ensures
        digit_of(numeral_char(d)) == Some(d as u32),
        numeral_char(d) != 'x',
        d < 10 ==> numeral_char(d) != 'b',
{
}

/// The tokenizer over a radix prefix: it returns nothing and holds zero, to
/// be read in that radix.
proof fn lemma_lex_run_prefix(radix: nat)
    requires
        radix == 2 || radix == 8 || radix == 16,
    ensures
        lex_run(LexState::Idle, radix_prefix(radix)) == Ok::<(LexState, Seq<TokenView>), LexError>(
            (LexState::InNumber { value: 0, radix: radix as u32 }, Seq::empty()),
        ),
{
    let zero = seq!['0'];
    assert(zero.drop_last() =~= Seq::empty());
    assert(lex_run(LexState::Idle, zero.drop_last()) == Ok::<(LexState, Seq<TokenView>), LexError>(
        (LexState::Idle, Seq::empty()),
    ));
    assert(lex_run(LexState::Idle, zero) == Ok::<(LexState, Seq<TokenView>), LexError>(
        (LexState::InNumber { value: 0, radix: 8 }, Seq::empty()),
    ));
    let text = radix_prefix(radix);
    if radix != 8 {
        assert(text.drop_last() =~= zero);
    }
}

/// Over a radix prefix and the digits of a number in that radix the
/// tokenizer returns nothing yet and holds the number.
proof fn lemma_lex_run_numeral(n: nat, radix: nat)
    requires
        radix == 2 || radix == 8 || radix == 16,
    ensures
        lex_run(LexState::Idle, radix_prefix(radix) + numeral(n, radix)) == Ok::<
            (LexState, Seq<TokenView>),
            LexError,
        >((LexState::InNumber { value: n as int, radix: radix as u32 }, Seq::empty())),
    decreases n,
{
    let prefix = radix_prefix(radix);
    let text = prefix + numeral(n, radix);
    if n < radix {
        lemma_lex_run_prefix(radix);
        lemma_numeral_char(n);
        assert(text.drop_last() =~= prefix);
        assert(text.last() == numeral_char(n));
    } else {
        assert(n / radix < n && n % radix < radix && (n / radix) * radix + n % radix == n) by {
            vstd::arithmetic::div_mod::lemma_fundamental_div_mod(n as int, radix as int);
            vstd::arithmetic::div_mod::lemma_div_decreases(n as int, radix as int);
            vstd::arithmetic::div_mod::lemma_mod_bound(n as int, radix as int);
            vstd::arithmetic::mul::lemma_mul_is_commutative(radix as int, (n / radix) as int);
        }
        lemma_lex_run_numeral(n / radix, radix);
        lemma_numeral_char(n % radix);
        assert(text.drop_last() =~= prefix + numeral(n / radix, radix));
        assert(text.last() == numeral_char(n % radix));
    }
}

/// A number written in radix 16, 2 or 8 behind the prefix of the radix
/// reads back as itself: `0x1f` is 31, `0b101` is 5 and `017` is 15.
pub proof fn lemma_radix_round_trip(n: nat, radix: nat)
    requires
        radix == 2 || radix == 8 || radix == 16,
    ensures
        tokens_of(radix_prefix(radix) + numeral(n, radix)) == Ok::<Seq<TokenView>, LexError>(
            seq![TokenView::Val(n as int)],
        ),
{
    lemma_lex_run_numeral(n, radix);
    assert(Seq::<TokenView>::empty().push(TokenView::Val(n as int)) =~= seq![
        TokenView::Val(n as int),
    ]);
}

/// The tokenizer run over two texts in a row is the run over the first, then
/// the run over the second from where the first ended; the tokens of the
/// second follow those of the first.
pub proof fn lemma_lex_run_in_two_parts(state: LexState, first: Seq<char>, second: Seq<char>)
    ensures
        lex_run(state, first + second) == match lex_run(state, first) {
            Ok((middle, head)) => match lex_run(middle, second) {
                Ok((end, tail)) => Ok((end, head + tail)),
                Err(e) => Err(e),
            },
            Err(e) => Err(e),
        },
    decreases second.len(),
{
    if second.len() == 0 {
        assert(first + second =~= first);
        match lex_run(state, first) {
            Ok((middle, head)) => {
                assert(head + Seq::<TokenView>::empty() =~= head);
            },
            Err(e) => {},
        }
    } else {
        lemma_lex_run_in_two_parts(state, first, second.drop_last());
        assert((first + second).drop_last() =~= first + second.drop_last());
        assert((first + second).last() == second.last());
        match lex_run(state, first) {
            Ok((middle, head)) => {
                match lex_run(middle, second.drop_last()) {
                    Ok((before, tail)) => {
                        let step = lex_step(before, second.last());
                        match step.out {
                            Ok(Some(token)) => {
                                assert((head + tail).push(token) =~= head + tail.push(token));
                            },
                            _ => {},
                        }
                    },
                    Err(e) => {},
                }
            },
            Err(e) => {},
        }
    }
}

/// Whitespace ends a token as the end of the text does: after a text and a
/// whitespace character the tokenizer is idle and has returned the tokens of
/// the text, or has failed as on the text alone.
pub proof fn lemma_space_ends_token(input: Seq<char>, space: char)
    requires
        is_space(space),
    ensures
        lex_run(LexState::Idle, input.push(space)) == match tokens_of(input) {
            Ok(tokens) => Ok::<(LexState, Seq<TokenView>), LexError>((LexState::Idle, tokens)),
            Err(e) => Err::<(LexState, Seq<TokenView>), LexError>(e),
        },
{
    assert(input.push(space).drop_last() =~= input);
}

/// Whitespace separates: the tokens of two texts with a whitespace character
/// between them are the tokens of the first, then the tokens of the second.
pub proof fn lemma_space_separates(first: Seq<char>, space: char, second: Seq<char>)
    requires
        is_space(space),
    ensures
        tokens_of(first.push(space) + second) == match tokens_of(first) {
            Ok(head) => match tokens_of(second) {
                Ok(tail) => Ok::<Seq<TokenView>, LexError>(head + tail),
                Err(e) => Err::<Seq<TokenView>, LexError>(e),
            },
            Err(e) => Err::<Seq<TokenView>, LexError>(e),
        },
{
    lemma_space_ends_token(first, space);
    lemma_lex_run_in_two_parts(LexState::Idle, first.push(space), second);
    match tokens_of(first) {
        Ok(head) => {
            match lex_run(LexState::Idle, second) {
                Ok((end, tail)) => {
                    match lex_flush(end) {
                        Ok(Some(token)) => {
                            assert((head + tail).push(token) =~= head + tail.push(token));
                        },
                        _ => {},
                    }
                },
                Err(e) => {},
            }
        },
        Err(e) => {},
    }
}

/// Whitespace at either end of a text changes nothing of its tokens.
pub proof fn lemma_space_around(input: Seq<char>, space: char)
    requires
        is_space(space),
    ensures
        tokens_of(input.push(space)) == tokens_of(input),
        tokens_of(seq![space] + input) == tokens_of(input),
{
    lemma_space_ends_token(input, space);
    let empty = Seq::<char>::empty();
    assert(empty.push(space) =~= seq![space]);
    lemma_space_separates(empty, space, input);
    match tokens_of(input) {
        Ok(tokens) => {
            assert(Seq::<TokenView>::empty() + tokens =~= tokens);
        },
        Err(e) => {},
    }
}

/// What the tokenizer and the evaluator do together on a text is what the
/// evaluator does on the tokens of the text: while the tokenizer does not
/// fail, the joint run holds the tokenizer's state and the evaluator that was
/// fed the tokens returned so far.
proof fn lemma_eval_run_follows_tokens(input: Seq<char>)
    requires
        lex_run(LexState::Idle, input) is Ok,
    ensures
        eval_run(input) == match calc_run(initial(), lex_run(LexState::Idle, input)->Ok_0.1) {
            Ok(calc) => Ok::<(LexState, CalcView), EvalErrorView>(
                (lex_run(LexState::Idle, input)->Ok_0.0, calc),
            ),
            Err(e) => Err::<(LexState, CalcView), EvalErrorView>(EvalErrorView::Calculate(e)),
        },
    decreases input.len(),
{
    if input.len() > 0 {
        let shorter = input.drop_last();
        lemma_eval_run_follows_tokens(shorter);
        let (before, tokens) = lex_run(LexState::Idle, shorter)->Ok_0;
        let step = lex_step(before, input.last());
        match step.out {
            Ok(Some(token)) => {
                assert(tokens.push(token).drop_last() =~= tokens);
            },
            _ => {},
        }
    }
}

/// The tokenizer and the evaluator compose: where a text has tokens, its
/// value is the value of its tokens.
pub proof fn lemma_value_is_value_of_tokens(input: Seq<char>)
    requires
        tokens_of(input) is Ok,
    ensures
        value_of(input) == match value_of_tokens(tokens_of(input)->Ok_0) {
            Ok(value) => Ok::<int, EvalErrorView>(value),
            Err(e) => Err::<int, EvalErrorView>(EvalErrorView::Calculate(e)),
        },
{
    lemma_eval_run_follows_tokens(input);
    let (state, tokens) = lex_run(LexState::Idle, input)->Ok_0;
    match lex_flush(state) {
        Ok(Some(token)) => {
            assert(tokens.push(token).drop_last() =~= tokens);
        },
        _ => {},
    }
}

/// A text that is not a token sequence has no value: the tokenizer's error
/// is the error of the evaluation, unless the evaluator fails first.
pub proof fn lemma_tokenizer_error_or_earlier(input: Seq<char>)
    requires
        tokens_of(input) is Err,
    ensures
        value_of(input) is Err,
        value_of(input)->Err_0 is Tokenize ==> value_of(input)->Err_0 == EvalErrorView::Tokenize(
            tokens_of(input)->Err_0,
        ),
{
    if lex_run(LexState::Idle, input) is Ok {
        lemma_eval_run_follows_tokens(input);
    } else {
        lemma_eval_run_error_side(input);
    }
}

/// Where the tokenizer fails on a text, the joint run fails on it too, with
/// the tokenizer's error or with an error of the evaluator.
proof fn lemma_eval_run_error_side(input: Seq<char>)
    requires
        lex_run(LexState::Idle, input) is Err,
    ensures
        eval_run(input) is Err,
        eval_run(input)->Err_0 is Tokenize ==> eval_run(input)->Err_0 == EvalErrorView::Tokenize(
            lex_run(LexState::Idle, input)->Err_0,
        ),
    decreases input.len(),
{
    if input.len() > 0 {
        let shorter = input.drop_last();
        if lex_run(LexState::Idle, shorter) is Err {
            lemma_eval_run_error_side(shorter);
        } else {
            lemma_eval_run_follows_tokens(shorter);
        }
    }
}

/// A number written in decimal evaluates to itself.
pub proof fn lemma_decimal_evaluates_to_itself(n: nat)
    ensures
        value_of(decimal(n)) == Ok::<int, EvalErrorView>(n as int),
{
    lemma_decimal_round_trip(n);
    lemma_value_is_value_of_tokens(decimal(n));
    let tokens = seq![TokenView::Val(n as int)];
    assert(tokens.drop_last() =~= Seq::empty());
    assert(calc_run(initial(), tokens.drop_last()) == Ok::<CalcView, CalculatorError>(initial()));
    reveal_with_fuel(drain, 1);
}

/// The evaluator run over two token sequences in a row is the run over the
/// first, then the run over the second from where the first ended.
pub proof fn lemma_calc_run_in_two_parts(calc: CalcView, first: Seq<TokenView>, second: Seq<TokenView>)
    ensures
        calc_run(calc, first + second) == match calc_run(calc, first) {
            Ok(middle) => calc_run(middle, second),
            Err(e) => Err(e),
        },
    decreases second.len(),
{
    if second.len() == 0 {
        assert(first + second =~= first);
    } else {
        lemma_calc_run_in_two_parts(calc, first, second.drop_last());
        assert((first + second).drop_last() =~= first + second.drop_last());
        assert((first + second).last() == second.last());
    }
}

/// The run over one token is one step.
pub proof fn lemma_calc_run_one(calc: CalcView, token: TokenView)
    ensures
        calc_run(calc, seq![token]) == calc_step(calc, token),
{
    let tokens = seq![token];
    assert(tokens.drop_last() =~= Seq::empty());
    assert(calc_run(calc, tokens.drop_last()) == Ok::<CalcView, CalculatorError>(calc));
}

/// A unary plus changes nothing: where an operand is due, the evaluator is
/// after a plus sign as it was before.
pub proof fn lemma_unary_plus_is_identity(calc: CalcView)
    requires
        !(calc.state is Value),
    ensures
        calc_step(calc, TokenView::Op(Operator::Add)) == Ok::<CalcView, CalculatorError>(calc),
{
}

/// Two unary minus signs cancel: where an operand is due, the evaluator is
/// after two minus signs as it was before.
pub proof fn lemma_double_minus_cancels(calc: CalcView)
    requires
        !(calc.state is Value),
    ensures
        calc_run(calc, seq![TokenView::Op(Operator::Sub), TokenView::Op(Operator::Sub)]) == Ok::<
            CalcView,
            CalculatorError,
        >(calc),
{
    let minus = TokenView::Op(Operator::Sub);
    assert(seq![minus, minus] =~= seq![minus] + seq![minus]);
    lemma_calc_run_in_two_parts(calc, seq![minus], seq![minus]);
    lemma_calc_run_one(calc, minus);
    let middle = calc_step(calc, minus)->Ok_0;
    lemma_calc_run_one(middle, minus);
}

/// Two minus signs before any tokens change nothing of their value.
pub proof fn lemma_leading_double_minus(rest: Seq<TokenView>)
    ensures
        value_of_tokens(
            seq![TokenView::Op(Operator::Sub), TokenView::Op(Operator::Sub)] + rest,
        ) == value_of_tokens(rest),
{
    let signs = seq![TokenView::Op(Operator::Sub), TokenView::Op(Operator::Sub)];
    lemma_double_minus_cancels(initial());
    lemma_calc_run_in_two_parts(initial(), signs, rest);
}

/// A negated number is the negative of the number.
pub proof fn lemma_minus_number(v: int)
    ensures
        value_of_tokens(seq![TokenView::Op(Operator::Sub), TokenView::Val(v)]) == Ok::<
            int,
            CalculatorError,
        >(-v),
{
    let minus = TokenView::Op(Operator::Sub);
    let number = TokenView::Val(v);
    assert(seq![minus, number] =~= seq![minus] + seq![number]);
    lemma_calc_run_in_two_parts(initial(), seq![minus], seq![number]);
    lemma_calc_run_one(initial(), minus);
    lemma_calc_run_one(calc_step(initial(), minus)->Ok_0, number);
    reveal_with_fuel(drain, 1);
}

/// What `l first m second r` means: with `first` binding at least as tightly
/// as `second` it is `(l first m) second r`, otherwise `l first (m second r)`.
pub open spec fn two_operator_value(l: int, first: Operator, m: int, second: Operator, r: int)
    -> Result<int, CalculatorError> {
    if priority_of(first) >= priority_of(second) {
        match apply(first, l, m) {
            Ok(left) => apply(second, left, r),
            Err(e) => Err(e),
        }
    } else {
        match apply(second, m, r) {
            Ok(right) => apply(first, l, right),
            Err(e) => Err(e),
        }
    }
}

/// Precedence and direction: of two operators in a row the one that binds
/// more tightly is applied first, and of two that bind alike the left one,
/// the power included.
pub proof fn lemma_precedence(l: int, first: Operator, m: int, second: Operator, r: int)
    ensures
        value_of_tokens(
            seq![
                TokenView::Val(l),
                TokenView::Op(first),
                TokenView::Val(m),
                TokenView::Op(second),
                TokenView::Val(r),
            ],
        ) == two_operator_value(l, first, m, second, r),
{
    let t0 = TokenView::Val(l);
    let t1 = TokenView::Op(first);
    let t2 = TokenView::Val(m);
    let t3 = TokenView::Op(second);
    let t4 = TokenView::Val(r);
    let tokens = seq![t0, t1, t2, t3, t4];
    let c0 = initial();
    let c1 = CalcView { state: CalcState::Value(l), pending: Seq::empty() };
    assert(calc_step(c0, t0) == Ok::<CalcView, CalculatorError>(c1));
    let waiting = Entry::Operation { l, op: first };
    let c2 = CalcView { state: CalcState::Empty, pending: Seq::empty().push(waiting) };
    assert(calc_step(c1, t1) == Ok::<CalcView, CalculatorError>(c2)) by {
        reveal_with_fuel(fold_pending, 1);
    }
    let c3 = CalcView { state: CalcState::Value(m), pending: c2.pending };
    assert(calc_step(c2, t2) == Ok::<CalcView, CalculatorError>(c3));
    assert(c3.pending.drop_last() =~= Seq::empty());
    assert(c3.pending.last() == waiting);
    assert(tokens =~= seq![t0] + seq![t1] + seq![t2] + seq![t3] + seq![t4]);
    lemma_calc_run_one(c0, t0);
    lemma_calc_run_in_two_parts(c0, seq![t0], seq![t1]);
    lemma_calc_run_one(c1, t1);
    lemma_calc_run_in_two_parts(c0, seq![t0] + seq![t1], seq![t2]);
    lemma_calc_run_one(c2, t2);
    lemma_calc_run_in_two_parts(c0, seq![t0] + seq![t1] + seq![t2], seq![t3]);
    lemma_calc_run_one(c3, t3);
    lemma_calc_run_in_two_parts(c0, seq![t0] + seq![t1] + seq![t2] + seq![t3], seq![t4]);
    assert(fold_pending(Seq::empty(), m, priority_of(second)) == Ok::<
        (Seq<Entry>, int),
        CalculatorError,
    >((Seq::empty(), m)));
    if priority_of(first) >= priority_of(second) {
        match apply(first, l, m) {
            Ok(left) => {
                assert(fold_pending(Seq::empty(), left, priority_of(second)) == Ok::<
                    (Seq<Entry>, int),
                    CalculatorError,
                >((Seq::empty(), left)));
                let c4 = CalcView {
                    state: CalcState::Empty,
                    pending: Seq::empty().push(Entry::Operation { l: left, op: second }),
                };
                assert(calc_step(c3, t3) == Ok::<CalcView, CalculatorError>(c4));
                lemma_calc_run_one(c4, t4);
                let c5 = CalcView { state: CalcState::Value(r), pending: c4.pending };
                assert(c5.pending.drop_last() =~= Seq::empty());
                assert(drain(Seq::empty(), apply(second, left, r)->Ok_0) == Ok::<
                    int,
                    CalculatorError,
                >(apply(second, left, r)->Ok_0));
            },
            Err(e) => {},
        }
    } else {
        let c4 = CalcView {
            state: CalcState::Empty,
            pending: c3.pending.push(Entry::Operation { l: m, op: second }),
        };
        assert(calc_step(c3, t3) == Ok::<CalcView, CalculatorError>(c4));
        lemma_calc_run_one(c4, t4);
        let c5 = CalcView { state: CalcState::Value(r), pending: c4.pending };
        assert(c5.pending.drop_last() =~= c3.pending);
        match apply(second, m, r) {
            Ok(right) => {
                assert(drain(c3.pending, right) == apply(first, l, right)) by {
                    match apply(first, l, right) {
                        Ok(value) => {
                            assert(drain(Seq::empty(), value) == Ok::<int, CalculatorError>(value));
                        },
                        Err(e) => {},
                    }
                }
            },
            Err(e) => {},
        }
    }
}

/// The number of parenthesis groups that are open on a stack.
pub open spec fn open_groups(pending: Seq<Entry>) -> nat
    decreases pending.len(),
{
    if pending.len() == 0 {
        0
    } else if pending.last() is Parentheses {
        open_groups(pending.drop_last()) + 1
    } else {
        open_groups(pending.drop_last())
    }
}

/// Folding an operand into waiting operations opens and closes no group.
proof fn lemma_fold_keeps_groups(pending: Seq<Entry>, v: int, min_priority: u8)
    requires
        fold_pending(pending, v, min_priority) is Ok,
    ensures
        open_groups(fold_pending(pending, v, min_priority)->Ok_0.0) == open_groups(pending),
    decreases pending.len(),
{
    if pending.len() > 0 {
        match pending.last() {
            Entry::Operation { l, op } => {
                if priority_of(op) >= min_priority {
                    lemma_fold_keeps_groups(pending.drop_last(), apply(op, l, v)->Ok_0, min_priority);
                }
            },
            Entry::Parentheses(_) => {},
        }
    }
}

/// Closing a group closes exactly one, and needs one that is open.
proof fn lemma_close_takes_one_group(pending: Seq<Entry>, v: int)
    ensures
        close_group(pending, v) is Ok ==> open_groups(pending) == open_groups(
            close_group(pending, v)->Ok_0.0,
        ) + 1,
        open_groups(pending) == 0 ==> close_group(pending, v) is Err,
        close_group(pending, v) == Err::<(Seq<Entry>, int), CalculatorError>(
            CalculatorError::NumberExpected,
        ) ==> open_groups(pending) == 0,
    decreases pending.len(),
{
    if pending.len() > 0 {
        match pending.last() {
            Entry::Operation { l, op } => {
                if apply(op, l, v) is Ok {
                    lemma_close_takes_one_group(pending.drop_last(), apply(op, l, v)->Ok_0);
                }
            },
            Entry::Parentheses(_) => {},
        }
    }
}

/// The end of the expression needs every group closed.
proof fn lemma_drain_needs_no_group(pending: Seq<Entry>, v: int)
    ensures
        drain(pending, v) is Ok ==> open_groups(pending) == 0,
        drain(pending, v) == Err::<int, CalculatorError>(CalculatorError::UnmatchedParen)
            ==> open_groups(pending) > 0,
    decreases pending.len(),
{
    if pending.len() > 0 {
        match pending.last() {
            Entry::Operation { l, op } => {
                if apply(op, l, v) is Ok {
                    lemma_drain_needs_no_group(pending.drop_last(), apply(op, l, v)->Ok_0);
                }
            },
            Entry::Parentheses(_) => {},
        }
    }
}

/// What a token adds to the number of open groups.
pub open spec fn depth_change(token: TokenView) -> int {
    match token {
        TokenView::ParenOpen => 1,
        TokenView::ParenClose => -1,
        _ => 0,
    }
}

/// The opening parentheses of a token sequence less its closing ones.
pub open spec fn depth_of(tokens: Seq<TokenView>) -> int
    decreases tokens.len(),
{
    if tokens.len() == 0 {
        0
    } else {
        depth_of(tokens.drop_last()) + depth_change(tokens.last())
    }
}

/// The stack counts the parentheses: an opening parenthesis opens one group,
/// a closing one closes one, and no other token opens or closes any.
pub proof fn lemma_step_counts_groups(calc: CalcView, token: TokenView)
    requires
        calc_step(calc, token) is Ok,
    ensures
        open_groups(calc_step(calc, token)->Ok_0.pending) == open_groups(calc.pending)
            + depth_change(token),
{
    let next = calc_step(calc, token)->Ok_0;
    match token {
        TokenView::ParenOpen => {
            match calc.state {
                CalcState::Value(v) => {
                    let with_product = calc.pending.push(
                        Entry::Operation { l: v, op: Operator::Mul },
                    );
                    assert(with_product.drop_last() =~= calc.pending);
                    assert(open_groups(with_product) == open_groups(calc.pending));
                    assert(next.pending == with_product.push(Entry::Parentheses(false)));
                    assert(next.pending.drop_last() =~= with_product);
                    assert(open_groups(next.pending) == open_groups(with_product) + 1);
                },
                CalcState::Empty => {
                    assert(next.pending == calc.pending.push(Entry::Parentheses(false)));
                    assert(next.pending.drop_last() =~= calc.pending);
                    assert(open_groups(next.pending) == open_groups(calc.pending) + 1);
                },
                CalcState::Neg => {
                    assert(next.pending == calc.pending.push(Entry::Parentheses(true)));
                    assert(next.pending.drop_last() =~= calc.pending);
                    assert(open_groups(next.pending) == open_groups(calc.pending) + 1);
                },
            }
        },
        TokenView::ParenClose => {
            lemma_close_takes_one_group(calc.pending, calc.state->Value_0);
        },
        TokenView::Op(op) => {
            match calc.state {
                CalcState::Value(v) => {
                    lemma_fold_keeps_groups(calc.pending, v, priority_of(op));
                    let rest = fold_pending(calc.pending, v, priority_of(op))->Ok_0.0;
                    assert(next.pending.drop_last() =~= rest);
                },
                _ => {},
            }
        },
        TokenView::Val(_) => {},
    }
}

/// A closing parenthesis with no group open is an error.
pub proof fn lemma_close_needs_open_group(calc: CalcView)
    requires
        open_groups(calc.pending) == 0,
    ensures
        calc_step(calc, TokenView::ParenClose) is Err,
{
    if calc.state is Value {
        lemma_close_takes_one_group(calc.pending, calc.state->Value_0);
    }
}

/// The end with a group still open is an error, and the error that names the
/// unmatched parenthesis comes only then.
pub proof fn lemma_finish_needs_closed_groups(calc: CalcView)
    ensures
        calc_finish(calc) is Ok ==> open_groups(calc.pending) == 0,
        calc_finish(calc) == Err::<int, CalculatorError>(CalculatorError::UnmatchedParen)
            ==> open_groups(calc.pending) > 0,
{
    if calc.state is Value {
        lemma_drain_needs_no_group(calc.pending, calc.state->Value_0);
    }
}

/// After a run the open groups are those that the run has opened and not
/// closed.
pub proof fn lemma_run_counts_groups(calc: CalcView, tokens: Seq<TokenView>)
    requires
        calc_run(calc, tokens) is Ok,
    ensures
        open_groups(calc_run(calc, tokens)->Ok_0.pending) == open_groups(calc.pending) + depth_of(
            tokens,
        ),
    decreases tokens.len(),
{
    if tokens.len() > 0 {
        lemma_run_counts_groups(calc, tokens.drop_last());
        lemma_step_counts_groups(calc_run(calc, tokens.drop_last())->Ok_0, tokens.last());
    }
}

/// Only balanced parentheses have a value: a token sequence with a value has
/// as many closing parentheses as opening ones.
pub proof fn lemma_value_needs_balance(tokens: Seq<TokenView>)
    requires
        value_of_tokens(tokens) is Ok,
    ensures
        depth_of(tokens) == 0,
{
    lemma_run_counts_groups(initial(), tokens);
    lemma_finish_needs_closed_groups(calc_run(initial(), tokens)->Ok_0);
}

/// The evaluator `calc` with the stack `below` under its own.
pub open spec fn on_top_of(below: Seq<Entry>, calc: CalcView) -> CalcView {
    CalcView { state: calc.state, pending: below + calc.pending }
}

/// A fold stops at a group: over a stack that stands on an open group it
/// goes as it does over the stack alone.
proof fn lemma_fold_on_top(below: Seq<Entry>, pending: Seq<Entry>, v: int, min_priority: u8)
    requires
        below.len() > 0,
        below.last() is Parentheses,
    ensures
        fold_pending(below + pending, v, min_priority) == match fold_pending(
            pending,
            v,
            min_priority,
        ) {
            Ok((rest, folded)) => Ok((below + rest, folded)),
            Err(e) => Err(e),
        },
    decreases pending.len(),
{
    let whole = below + pending;
    if pending.len() == 0 {
        assert(whole =~= below);
    } else {
        assert(whole.last() == pending.last());
        assert(whole.drop_last() =~= below + pending.drop_last());
        match pending.last() {
            Entry::Operation { l, op } => {
                if priority_of(op) >= min_priority && apply(op, l, v) is Ok {
                    lemma_fold_on_top(
                        below,
                        pending.drop_last(),
                        apply(op, l, v)->Ok_0,
                        min_priority,
                    );
                }
            },
            Entry::Parentheses(_) => {},
        }
    }
}

/// Closing a group that is open on a stack leaves what is below the stack
/// alone.
proof fn lemma_close_on_top(below: Seq<Entry>, pending: Seq<Entry>, v: int)
    requires
        close_group(pending, v) is Ok,
    ensures
        close_group(below + pending, v) == Ok::<(Seq<Entry>, int), CalculatorError>(
            (below + close_group(pending, v)->Ok_0.0, close_group(pending, v)->Ok_0.1),
        ),
    decreases pending.len(),
{
    let whole = below + pending;
    assert(whole.last() == pending.last());
    assert(whole.drop_last() =~= below + pending.drop_last());
    match pending.last() {
        Entry::Operation { l, op } => {
            lemma_close_on_top(below, pending.drop_last(), apply(op, l, v)->Ok_0);
        },
        Entry::Parentheses(_) => {},
    }
}

/// A step that succeeds goes the same way on top of an open group.
proof fn lemma_step_on_top(below: Seq<Entry>, calc: CalcView, token: TokenView)
    requires
        below.len() > 0,
        below.last() is Parentheses,
        calc_step(calc, token) is Ok,
    ensures
        calc_step(on_top_of(below, calc), token) == Ok::<CalcView, CalculatorError>(
            on_top_of(below, calc_step(calc, token)->Ok_0),
        ),
{
    let next = calc_step(calc, token)->Ok_0;
    let lifted = calc_step(on_top_of(below, calc), token);
    match token {
        TokenView::Val(_) => {},
        TokenView::Op(op) => {
            match calc.state {
                CalcState::Value(v) => {
                    lemma_fold_on_top(below, calc.pending, v, priority_of(op));
                    let (rest, folded) = fold_pending(calc.pending, v, priority_of(op))->Ok_0;
                    let entry = Entry::Operation { l: folded, op };
                    assert((below + rest).push(entry) =~= below + rest.push(entry));
                },
                _ => {},
            }
        },
        TokenView::ParenOpen => {
            match calc.state {
                CalcState::Value(v) => {
                    let product = Entry::Operation { l: v, op: Operator::Mul };
                    let group = Entry::Parentheses(false);
                    assert((below + calc.pending).push(product).push(group) =~= below
                        + calc.pending.push(product).push(group));
                },
                CalcState::Empty => {
                    let group = Entry::Parentheses(false);
                    assert((below + calc.pending).push(group) =~= below + calc.pending.push(
                        group,
                    ));
                },
                CalcState::Neg => {
                    let group = Entry::Parentheses(true);
                    assert((below + calc.pending).push(group) =~= below + calc.pending.push(
                        group,
                    ));
                },
            }
        },
        TokenView::ParenClose => {
            lemma_close_on_top(below, calc.pending, calc.state->Value_0);
        },
    }
}

/// A run that succeeds goes the same way on top of an open group.
proof fn lemma_run_on_top(below: Seq<Entry>, calc: CalcView, tokens: Seq<TokenView>)
    requires
        below.len() > 0,
        below.last() is Parentheses,
        calc_run(calc, tokens) is Ok,
    ensures
        calc_run(on_top_of(below, calc), tokens) == Ok::<CalcView, CalculatorError>(
            on_top_of(below, calc_run(calc, tokens)->Ok_0),
        ),
    decreases tokens.len(),
{
    if tokens.len() > 0 {
        lemma_run_on_top(below, calc, tokens.drop_last());
        lemma_step_on_top(below, calc_run(calc, tokens.drop_last())->Ok_0, tokens.last());
    }
}

/// Closing the group under a stack that the end of the expression would
/// fold to `value` folds it to `value` too, and negates it if the group is
/// negated.
proof fn lemma_close_like_drain(below: Seq<Entry>, negate: bool, pending: Seq<Entry>, v: int)
    requires
        drain(pending, v) is Ok,
    ensures
        close_group(below.push(Entry::Parentheses(negate)) + pending, v) == Ok::<
            (Seq<Entry>, int),
            CalculatorError,
        >(
            (below, if negate {
                -(drain(pending, v)->Ok_0)
            } else {
                drain(pending, v)->Ok_0
            }),
        ),
    decreases pending.len(),
{
    let base = below.push(Entry::Parentheses(negate));
    let whole = base + pending;
    if pending.len() == 0 {
        assert(whole =~= base);
        assert(base.drop_last() =~= below);
    } else {
        assert(whole.last() == pending.last());
        assert(whole.drop_last() =~= base + pending.drop_last());
        match pending.last() {
            Entry::Operation { l, op } => {
                lemma_close_like_drain(below, negate, pending.drop_last(), apply(op, l, v)->Ok_0);
            },
            Entry::Parentheses(_) => {},
        }
    }
}

/// The evaluator after a parenthesis group whose content has the value
/// `value`, read from `calc`: it holds the value as its operand, negated
/// where a minus sign stood before the group; where an operand stood before
/// the group, that operand waits to be multiplied with it.
pub open spec fn after_group(calc: CalcView, value: int) -> CalcView {
    match calc.state {
        CalcState::Empty => CalcView { state: CalcState::Value(value), pending: calc.pending },
        CalcState::Neg => CalcView { state: CalcState::Value(-value), pending: calc.pending },
        CalcState::Value(l) => CalcView {
            state: CalcState::Value(value),
            pending: calc.pending.push(Entry::Operation { l, op: Operator::Mul }),
        },
    }
}

/// A parenthesis group stands for the value of its content: wherever it is
/// read, tokens that have a value of their own, between parentheses, leave
/// the evaluator as after that group.
pub proof fn lemma_group_stands_for_its_value(calc: CalcView, inner: Seq<TokenView>)
    requires
        value_of_tokens(inner) is Ok,
    ensures
        calc_run(calc, seq![TokenView::ParenOpen] + inner + seq![TokenView::ParenClose]) == Ok::<
            CalcView,
            CalculatorError,
        >(after_group(calc, value_of_tokens(inner)->Ok_0)),
{
    let open = seq![TokenView::ParenOpen];
    let close = seq![TokenView::ParenClose];
    let negate = calc.state is Neg;
    let below = match calc.state {
        CalcState::Value(l) => calc.pending.push(Entry::Operation { l, op: Operator::Mul }),
        _ => calc.pending,
    };
    let base = below.push(Entry::Parentheses(negate));
    let opened = CalcView { state: CalcState::Empty, pending: base };
    lemma_calc_run_one(calc, TokenView::ParenOpen);
    assert(calc_run(calc, open) == Ok::<CalcView, CalculatorError>(opened));
    assert(opened == on_top_of(base, initial())) by {
        assert(base + Seq::<Entry>::empty() =~= base);
    }
    let content = calc_run(initial(), inner)->Ok_0;
    lemma_run_on_top(base, initial(), inner);
    lemma_calc_run_in_two_parts(calc, open, inner);
    assert(calc_run(calc, open + inner) == Ok::<CalcView, CalculatorError>(
        on_top_of(base, content),
    ));
    lemma_calc_run_in_two_parts(calc, open + inner, close);
    lemma_calc_run_one(on_top_of(base, content), TokenView::ParenClose);
    lemma_close_like_drain(below, negate, content.pending, content.state->Value_0);
}

/// A parenthesis group alone has the value of its content.
pub proof fn lemma_group_value(inner: Seq<TokenView>)
    requires
        value_of_tokens(inner) is Ok,
    ensures
        value_of_tokens(seq![TokenView::ParenOpen] + inner + seq![TokenView::ParenClose])
            == value_of_tokens(inner),
{
    lemma_group_stands_for_its_value(initial(), inner);
    reveal_with_fuel(drain, 1);
}

/// A minus sign before a parenthesis group negates the value of its content.
pub proof fn lemma_negated_group_value(inner: Seq<TokenView>)
    requires
        value_of_tokens(inner) is Ok,
    ensures
        value_of_tokens(
            seq![TokenView::Op(Operator::Sub)] + (seq![TokenView::ParenOpen] + inner
                + seq![TokenView::ParenClose]),
        ) == Ok::<int, CalculatorError>(-(value_of_tokens(inner)->Ok_0)),
{
    let minus = TokenView::Op(Operator::Sub);
    let group = seq![TokenView::ParenOpen] + inner + seq![TokenView::ParenClose];
    lemma_calc_run_one(initial(), minus);
    let signed = calc_step(initial(), minus)->Ok_0;
    lemma_calc_run_in_two_parts(initial(), seq![minus], group);
    lemma_group_stands_for_its_value(signed, inner);
    reveal_with_fuel(drain, 1);
}

/// Implicit multiplication: a number directly before a parenthesis group is
/// multiplied with the value of the group's content.
pub proof fn lemma_implicit_multiplication(l: int, inner: Seq<TokenView>)
    requires
        value_of_tokens(inner) is Ok,
    ensures
        value_of_tokens(
            seq![TokenView::Val(l)] + (seq![TokenView::ParenOpen] + inner
                + seq![TokenView::ParenClose]),
        ) == Ok::<int, CalculatorError>(l * value_of_tokens(inner)->Ok_0),
{
    let number = TokenView::Val(l);
    let group = seq![TokenView::ParenOpen] + inner + seq![TokenView::ParenClose];
    lemma_calc_run_one(initial(), number);
    let held = calc_step(initial(), number)->Ok_0;
    lemma_calc_run_in_two_parts(initial(), seq![number], group);
    lemma_group_stands_for_its_value(held, inner);
    let value = value_of_tokens(inner)->Ok_0;
    let after = after_group(held, value);
    assert(after.pending.drop_last() =~= Seq::empty());
    assert(drain(Seq::empty(), l * value) == Ok::<int, CalculatorError>(l * value));
}

} // verus!
