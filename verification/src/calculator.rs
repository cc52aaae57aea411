//! The evaluator: a state machine fed one token at a time.
//!
//! It keeps the operand read last and a stack of what still waits for its
//! right operand or its closing parenthesis, and so evaluates an expression
//! in one pass, with operator precedence, without ever holding the whole
//! expression. What the machine does is written down once, as the spec
//! functions [`calc_step`] and [`calc_finish`] over the mathematical state
//! [`CalcView`]; the executable methods are proved to follow them.

use crate::bigint::{
    int_add, int_checked_div, int_mul, int_neg, int_pow, int_sub, int_to_u32, int_value, trunc_div,
};
use crate::tokenizer::{Operator, Token, TokenView, Value};
use vstd::arithmetic::power::pow;
use vstd::prelude::*;

verus! {

/// Why a token sequence has no value.
#[derive(Debug, Clone, Copy, PartialEq, Eq)]
pub enum CalculatorError {
    /// An operator, a closing parenthesis or the end stands where an operand
    /// was due; also a closing parenthesis that closes no group.
    NumberExpected,
    /// An operand stands where an operator was due.
    OperationExpected,
    /// The expression ended inside a parenthesis group.
    UnmatchedParen,
    /// A division by zero.
    DivisionByZero,
    /// A power whose exponent is negative or above `u32::MAX`.
    InvalidExponent,
}

/// What the evaluator holds besides its stack, as a mathematical value.
pub enum CalcState {
    /// No operand yet: a number or a sign is due.
    Empty,
    /// No operand yet, and an odd number of unary minus signs was read.
    Neg,
    /// A complete operand: an operator, a closing parenthesis or the end is
    /// due.
    Value(int),
}

/// An entry of the evaluator's stack, as a mathematical value.
pub enum Entry {
    /// An open parenthesis group, and whether the group is negated.
    Parentheses(bool),
    /// An operator and its left operand, waiting for the right one.
    Operation { l: int, op: Operator },
}

/// The evaluator as a mathematical value. The top of the stack is the end of
/// `pending`.
pub struct CalcView {
    pub state: CalcState,
    pub pending: Seq<Entry>,
}

/// The evaluator before the first token.
pub open spec fn initial() -> CalcView {
    CalcView { state: CalcState::Empty, pending: Seq::empty() }
}

/// How tightly an operator binds: the higher, the tighter.
pub open spec fn priority_of(op: Operator) -> u8 {
    match op {
        Operator::Add | Operator::Sub => 10,
        Operator::Mul | Operator::Div => 20,
        Operator::Pow => 30,
    }
}

/// The value of `l op r`.
///
/// Division rounds toward zero. Two operations have no value: a division by
/// zero, and a power whose exponent is negative or above `u32::MAX`.
pub open spec fn apply(op: Operator, l: int, r: int) -> Result<int, CalculatorError> {
    match op {
        Operator::Add => Ok(l + r),
        Operator::Sub => Ok(l - r),
        Operator::Mul => Ok(l * r),
        Operator::Div => if r == 0 {
            Err(CalculatorError::DivisionByZero)
        } else {
            Ok(trunc_div(l, r))
        },
        Operator::Pow => if 0 <= r <= u32::MAX {
            Ok(pow(l, r as nat))
        } else {
            Err(CalculatorError::InvalidExponent)
        },
    }
}

/// Folds the operand `v` into the waiting operations on top of the stack
/// that bind at least as tightly as `min_priority`, topmost first, each with
/// its own left operand on the left. Stops below them: at a parenthesis
/// group, at an operation that binds less tightly, or at the bottom. Yields
/// what is left of the stack and the folded value.
pub open spec fn fold_pending(pending: Seq<Entry>, v: int, min_priority: u8) -> Result<
    (Seq<Entry>, int),
    CalculatorError,
>
    decreases pending.len(),
{
    if pending.len() == 0 {
        Ok((pending, v))
    } else {
        match pending.last() {
            Entry::Operation { l, op } => if priority_of(op) >= min_priority {
                match apply(op, l, v) {
                    Ok(folded) => fold_pending(pending.drop_last(), folded, min_priority),
                    Err(e) => Err(e),
                }
            } else {
                Ok((pending, v))
            },
            Entry::Parentheses(_) => Ok((pending, v)),
        }
    }
}

/// Closes the innermost parenthesis group on the operand `v`: folds `v` into
/// every waiting operation above the group's entry, removes that entry and
/// negates the value if the group is negated. Yields what is left of the
/// stack and the group's value. With no group open it is an error.
pub open spec fn close_group(pending: Seq<Entry>, v: int) -> Result<
    (Seq<Entry>, int),
    CalculatorError,
>
    decreases pending.len(),
{
    if pending.len() == 0 {
        Err(CalculatorError::NumberExpected)
    } else {
        match pending.last() {
            Entry::Operation { l, op } => match apply(op, l, v) {
                Ok(folded) => close_group(pending.drop_last(), folded),
                Err(e) => Err(e),
            },
            Entry::Parentheses(negate) => Ok(
                (pending.drop_last(), if negate {
                    -v
                } else {
                    v
                }),
            ),
        }
    }
}

/// Ends the expression on the operand `v`: folds `v` into every waiting
/// operation down to the bottom of the stack. A parenthesis group that is
/// still open is an error.
pub open spec fn drain(pending: Seq<Entry>, v: int) -> Result<int, CalculatorError>
    decreases pending.len(),
{
    if pending.len() == 0 {
        Ok(v)
    } else {
        match pending.last() {
            Entry::Operation { l, op } => match apply(op, l, v) {
                Ok(folded) => drain(pending.drop_last(), folded),
                Err(e) => Err(e),
            },
            Entry::Parentheses(_) => Err(CalculatorError::UnmatchedParen),
        }
    }
}

/// One step of the evaluator on `token`: the evaluator afterwards, or the
/// error.
pub open spec fn calc_step(c: CalcView, token: TokenView) -> Result<CalcView, CalculatorError> {
    match c.state {
        CalcState::Empty => match token {
            TokenView::Val(v) => Ok(CalcView { state: CalcState::Value(v), pending: c.pending }),
            TokenView::Op(Operator::Sub) => Ok(
                CalcView { state: CalcState::Neg, pending: c.pending },
            ),
            TokenView::Op(Operator::Add) => Ok(c),
            TokenView::Op(_) => Err(CalculatorError::NumberExpected),
            TokenView::ParenOpen => Ok(
                CalcView {
                    state: CalcState::Empty,
                    pending: c.pending.push(Entry::Parentheses(false)),
                },
            ),
            TokenView::ParenClose => Err(CalculatorError::NumberExpected),
        },
        CalcState::Neg => match token {
            TokenView::Val(v) => Ok(CalcView { state: CalcState::Value(-v), pending: c.pending }),
            TokenView::Op(Operator::Sub) => Ok(
                CalcView { state: CalcState::Empty, pending: c.pending },
            ),
            TokenView::Op(Operator::Add) => Ok(c),
            TokenView::Op(_) => Err(CalculatorError::NumberExpected),
            TokenView::ParenOpen => Ok(
                CalcView {
                    state: CalcState::Empty,
                    pending: c.pending.push(Entry::Parentheses(true)),
                },
            ),
            TokenView::ParenClose => Err(CalculatorError::NumberExpected),
        },
        CalcState::Value(v) => match token {
            TokenView::Val(_) => Err(CalculatorError::OperationExpected),
            TokenView::Op(op) => match fold_pending(c.pending, v, priority_of(op)) {
                Ok((rest, folded)) => Ok(
                    CalcView {
                        state: CalcState::Empty,
                        pending: rest.push(Entry::Operation { l: folded, op }),
                    },
                ),
                Err(e) => Err(e),
            },
            TokenView::ParenOpen => Ok(
                CalcView {
                    state: CalcState::Empty,
                    pending: c.pending.push(Entry::Operation { l: v, op: Operator::Mul }).push(
                        Entry::Parentheses(false),
                    ),
                },
            ),
            TokenView::ParenClose => match close_group(c.pending, v) {
                Ok((rest, value)) => Ok(CalcView { state: CalcState::Value(value), pending: rest }),
                Err(e) => Err(e),
            },
        },
    }
}

/// The value of the expression when the tokens end with the evaluator in
/// `c`, or the error.
pub open spec fn calc_finish(c: CalcView) -> Result<int, CalculatorError> {
    match c.state {
        CalcState::Empty => Err(CalculatorError::NumberExpected),
        CalcState::Neg => Err(CalculatorError::NumberExpected),
        CalcState::Value(v) => drain(c.pending, v),
    }
}

/// What the evaluator holds besides its stack.
#[derive(Debug)]
enum CalculatorState {
    Empty,
    Neg,
    Value(Value),
}

impl View for CalculatorState {
    type V = CalcState;

    closed spec fn view(&self) -> CalcState {
        match *self {
            CalculatorState::Empty => CalcState::Empty,
            CalculatorState::Neg => CalcState::Neg,
            CalculatorState::Value(v) => CalcState::Value(int_value(v)),
        }
    }
}

/// An operator and its left operand, waiting for the right one.
#[derive(Debug)]
struct Operation {
    l: Value,
    op: Operator,
}

/// An entry of the evaluator's stack.
#[derive(Debug)]
enum Action {
    Parentheses(bool),
    Operation(Operation),
}

impl View for Action {
    type V = Entry;

    closed spec fn view(&self) -> Entry {
        match *self {
            Action::Parentheses(negate) => Entry::Parentheses(negate),
            Action::Operation(operation) => Entry::Operation {
                l: int_value(operation.l),
                op: operation.op,
            },
        }
    }
}

/// The stack as a mathematical value.
spec fn entries(pending: Seq<Action>) -> Seq<Entry> {
    pending.map_values(|a: Action| a@)
}

impl Operation {
    /// The value of this operation with `r` as its right operand.
    fn execute(&self, r: &Value) -> (res: Result<Value, CalculatorError>)
        ensures
            match res {
                Ok(v) => apply(self.op, int_value(self.l), int_value(*r)) == Ok::<
                    int,
                    CalculatorError,
                >(int_value(v)),
                Err(e) => apply(self.op, int_value(self.l), int_value(*r)) == Err::<
                    int,
                    CalculatorError,
                >(e),
            },
    {
        match self.op {
            Operator::Add => Ok(int_add(&self.l, r)),
            Operator::Sub => Ok(int_sub(&self.l, r)),
            Operator::Mul => Ok(int_mul(&self.l, r)),
            Operator::Div => match int_checked_div(&self.l, r) {
                Some(q) => Ok(q),
                None => Err(CalculatorError::DivisionByZero),
            },
            Operator::Pow => match int_to_u32(r) {
                Ok(exp) => Ok(int_pow(&self.l, exp)),
                Err(_) => Err(CalculatorError::InvalidExponent),
            },
        }
    }

    /// How tightly this operation binds.
    fn priority(&self) -> (p: u8)
        ensures
            p == priority_of(self.op),
    {
        match self.op {
            Operator::Add | Operator::Sub => 10,
            Operator::Mul | Operator::Div => 20,
            Operator::Pow => 30,
        }
    }
}

/// The evaluator.
#[derive(Debug)]
pub struct Calculator {
    state: CalculatorState,
    pending: Vec<Action>,
}

impl View for Calculator {
    type V = CalcView;

    closed spec fn view(&self) -> CalcView {
        CalcView { state: self.state@, pending: entries(self.pending@) }
    }
}

impl Default for Calculator {
    /// An evaluator before the first token.
    fn default() -> (r: Self)
        ensures
            r@ == initial(),
    {
        let r = Calculator { state: CalculatorState::Empty, pending: Vec::new() };
        assert(entries(r.pending@) =~= Seq::empty());
        r
    }
}

impl Calculator {
    /// Feeds one token.
    ///
    /// On an error the evaluator is left as it was.
    pub fn handle_token(&mut self, token: Token) -> (res: Result<(), CalculatorError>)
        ensures
            match calc_step(old(self)@, token@) {
                Ok(next) => res is Ok && final(self)@ == next,
                Err(e) => res == Err::<(), CalculatorError>(e) && final(self)@ == old(self)@,
            },
    {
        match token {
            Token::Val(v) => match self.state {
                CalculatorState::Empty => {
                    self.state = CalculatorState::Value(v);
                    Ok(())
                },
                CalculatorState::Neg => {
                    self.state = CalculatorState::Value(int_neg(&v));
                    Ok(())
                },
                CalculatorState::Value(_) => Err(CalculatorError::OperationExpected),
            },
            Token::Op(op) => match &self.state {
                CalculatorState::Empty => match op {
                    Operator::Sub => {
                        self.state = CalculatorState::Neg;
                        Ok(())
                    },
                    Operator::Add => Ok(()),
                    _ => Err(CalculatorError::NumberExpected),
                },
                CalculatorState::Neg => match op {
                    Operator::Sub => {
                        self.state = CalculatorState::Empty;
                        Ok(())
                    },
                    Operator::Add => Ok(()),
                    _ => Err(CalculatorError::NumberExpected),
                },
                CalculatorState::Value(v) => {
                    let new = Operation { l: v.clone(), op };
                    match self.prioritized_execute(new) {
                        Ok(()) => {
                            self.state = CalculatorState::Empty;
                            Ok(())
                        },
                        Err(e) => Err(e),
                    }
                },
            },
            Token::ParenOpen => match &self.state {
                CalculatorState::Empty => {
                    self.push_entry(Action::Parentheses(false));
                    Ok(())
                },
                CalculatorState::Neg => {
                    self.push_entry(Action::Parentheses(true));
                    self.state = CalculatorState::Empty;
                    Ok(())
                },
                CalculatorState::Value(v) => {
                    let implicit = Operation { l: v.clone(), op: Operator::Mul };
                    self.push_entry(Action::Operation(implicit));
                    self.push_entry(Action::Parentheses(false));
                    self.state = CalculatorState::Empty;
                    Ok(())
                },
            },
            Token::ParenClose => self.finalize_expr(),
        }
    }

    /// Pushes one entry on the stack.
    fn push_entry(&mut self, entry: Action)
        ensures
            final(self)@.pending == old(self)@.pending.push(entry@),
            final(self).state == old(self).state,
    {
        self.pending.push(entry);
        assert(entries(self.pending@) =~= entries(old(self).pending@).push(entry@));
    }

    /// Folds the left operand of `new` into the waiting operations that bind
    /// at least as tightly as `new`, then pushes `new` with the folded value
    /// as its left operand.
    ///
    /// On an error the evaluator is left as it was.
    fn prioritized_execute(&mut self, new: Operation) -> (res: Result<(), CalculatorError>)
        ensures
            final(self).state == old(self).state,
            match fold_pending(old(self)@.pending, int_value(new.l), priority_of(new.op)) {
                Ok((rest, folded)) => res is Ok && final(self)@.pending == rest.push(
                    Entry::Operation { l: folded, op: new.op },
                ),
                Err(e) => res == Err::<(), CalculatorError>(e) && final(self)@.pending == old(
                    self,
                )@.pending,
            },
    {
        let priority = new.priority();
        let op = new.op;
        let mut l = new.l;
        let mut n = self.pending.len();
        let ghost all = entries(self.pending@);
        assert(all.take(n as int) =~= all);
        while n > 0
            invariant
                n <= self.pending.len(),
                *self == *old(self),
                all == entries(self.pending@),
                op == new.op,
                priority == priority_of(op),
                fold_pending(all, int_value(new.l), priority) == fold_pending(
                    all.take(n as int),
                    int_value(l),
                    priority,
                ),
            ensures
                n <= self.pending.len(),
                *self == *old(self),
                fold_pending(all, int_value(new.l), priority) == Ok::<
                    (Seq<Entry>, int),
                    CalculatorError,
                >((all.take(n as int), int_value(l))),
            decreases n,
        {
            let ghost top = all.take(n as int);
            assert(top.last() == self.pending@[n - 1]@);
            assert(top.drop_last() =~= all.take(n - 1));
            match &self.pending[n - 1] {
                Action::Operation(waiting) => {
                    if waiting.priority() >= priority {
                        match waiting.execute(&l) {
                            Ok(folded) => {
                                l = folded;
                                n = n - 1;
                            },
                            Err(e) => {
                                return Err(e);
                            },
                        }
                    } else {
                        break;
                    }
                },
                Action::Parentheses(_) => {
                    break;
                },
            }
        }
        self.pending.truncate(n);
        assert(entries(self.pending@) =~= all.take(n as int));
        self.push_entry(Action::Operation(Operation { l, op }));
        Ok(())
    }

    /// Handles a closing parenthesis: closes the innermost group on the
    /// operand that the evaluator holds; the group's value becomes the
    /// operand.
    ///
    /// On an error the evaluator is left as it was.
    fn finalize_expr(&mut self) -> (res: Result<(), CalculatorError>)
        ensures
            match calc_step(old(self)@, TokenView::ParenClose) {
                Ok(next) => res is Ok && final(self)@ == next,
                Err(e) => res == Err::<(), CalculatorError>(e) && final(self)@ == old(self)@,
            },
    {
        let mut v = match &self.state {
            CalculatorState::Value(v) => v.clone(),
            _ => {
                return Err(CalculatorError::NumberExpected);
            },
        };
        let ghost start = int_value(v);
        let ghost all = entries(self.pending@);
        let mut n = self.pending.len();
        assert(all.take(n as int) =~= all);
        while n > 0
            invariant
                n <= self.pending.len(),
                *self == *old(self),
                all == entries(self.pending@),
                old(self)@.state == CalcState::Value(start),
                close_group(all, start) == close_group(all.take(n as int), int_value(v)),
            decreases n,
        {
            let ghost top = all.take(n as int);
            assert(top.last() == self.pending@[n - 1]@);
            assert(top.drop_last() =~= all.take(n - 1));
            match &self.pending[n - 1] {
                Action::Operation(waiting) => {
                    match waiting.execute(&v) {
                        Ok(folded) => {
                            v = folded;
                            n = n - 1;
                        },
                        Err(e) => {
                            return Err(e);
                        },
                    }
                },
                Action::Parentheses(negate) => {
                    if *negate {
                        v = int_neg(&v);
                    }
                    self.pending.truncate(n - 1);
                    assert(entries(self.pending@) =~= all.take(n - 1));
                    self.state = CalculatorState::Value(v);
                    return Ok(());
                },
            }
        }
        Err(CalculatorError::NumberExpected)
    }

    /// Ends the expression: returns its value and leaves the evaluator as
    /// new, ready for the next expression.
    ///
    /// It is an error where no operand is held (the expression is empty or
    /// ends in an operator or a sign), where a parenthesis group is still
    /// open, or where a waiting operation has no value. The evaluator is
    /// left as new after an error too.
    pub fn finalize(&mut self) -> (res: Result<Value, CalculatorError>)
        ensures
            final(self)@ == initial(),
            match calc_finish(old(self)@) {
                Ok(value) => res is Ok && int_value(res->Ok_0) == value,
                Err(e) => res == Err::<Value, CalculatorError>(e),
            },
    {
        let mut state = CalculatorState::Empty;
        core::mem::swap(&mut self.state, &mut state);
        let mut pending: Vec<Action> = Vec::new();
        core::mem::swap(&mut self.pending, &mut pending);
        assert(entries(self.pending@) =~= Seq::empty());
        let mut v = match state {
            CalculatorState::Value(v) => v,
            _ => {
                return Err(CalculatorError::NumberExpected);
            },
        };
        let ghost start = int_value(v);
        let ghost all = entries(pending@);
        let mut n = pending.len();
        assert(all.take(n as int) =~= all);
        while n > 0
            invariant
                n <= pending.len(),
                all == entries(pending@),
                self@ == initial(),
                calc_finish(old(self)@) == drain(all, start),
                drain(all, start) == drain(all.take(n as int), int_value(v)),
            decreases n,
        {
            let ghost top = all.take(n as int);
            assert(top.last() == pending@[n - 1]@);
            assert(top.drop_last() =~= all.take(n - 1));
            match &pending[n - 1] {
                Action::Operation(waiting) => {
                    match waiting.execute(&v) {
                        Ok(folded) => {
                            v = folded;
                            n = n - 1;
                        },
                        Err(e) => {
                            return Err(e);
                        },
                    }
                },
                Action::Parentheses(_) => {
                    return Err(CalculatorError::UnmatchedParen);
                },
            }
        }
        Ok(v)
    }
}

} // verus!
