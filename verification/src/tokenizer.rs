//! The tokenizer: a state machine fed one character at a time.
//!
//! Each call of [`Tokenizer::update`] takes one character and hands back at
//! most one finished token; [`Tokenizer::finalize`] flushes what is still
//! buffered. What the machine does is written down once, as the spec functions
//! [`lex_step`] and [`lex_flush`] over the mathematical state [`LexState`];
//! the executable methods are proved to follow them.

use crate::bigint::{int_add, int_eq_u32, int_from_i64, int_from_u32, int_mul, int_value};
use crate::opbuf::{buffer_as_str, buffer_chars, buffer_from_char, buffer_push};
use compact_str::CompactString;
use malachite::Integer;
use vstd::prelude::*;

verus! {

/// The numbers of the evaluator are arbitrary-precision integers.
pub type Value = Integer;

/// A binary operator.
#[derive(Debug, Clone, Copy, PartialEq, Eq)]
pub enum Operator {
    Add,
    Sub,
    Mul,
    Div,
    Pow,
}

/// A lexical unit.
#[derive(Debug, Clone, PartialEq, Eq)]
pub enum Token {
    Val(Value),
    Op(Operator),
    ParenOpen,
    ParenClose,
}

/// A token as a mathematical value: a number is the integer it holds.
pub enum TokenView {
    Val(int),
    Op(Operator),
    ParenOpen,
    ParenClose,
}

impl View for Token {
    type V = TokenView;

    open spec fn view(&self) -> TokenView {
        match *self {
            Token::Val(v) => TokenView::Val(int_value(v)),
            Token::Op(op) => TokenView::Op(op),
            Token::ParenOpen => TokenView::ParenOpen,
            Token::ParenClose => TokenView::ParenClose,
        }
    }
}

/// Why a character sequence is no token.
#[derive(Debug, PartialEq, Eq)]
pub enum TokenizeError {
    /// A letter or digit that is no digit of the number's radix.
    InvalidNumber,
    /// A run of symbol characters that spells no operator; it holds the run.
    UnknownOperation(CompactString),
}

/// A tokenizer error as a mathematical value.
pub enum LexError {
    InvalidNumber,
    UnknownOperation(Seq<char>),
}

impl View for TokenizeError {
    type V = LexError;

    open spec fn view(&self) -> LexError {
        match *self {
            TokenizeError::InvalidNumber => LexError::InvalidNumber,
            TokenizeError::UnknownOperation(text) => LexError::UnknownOperation(
                buffer_chars(text),
            ),
        }
    }
}

/// The state of the tokenizer as a mathematical value.
pub enum LexState {
    /// Nothing is buffered.
    Idle,
    /// A one-character token is held back until the next call.
    Pending(TokenView),
    /// The digits of a number read so far, and the radix they are read in.
    InNumber { value: int, radix: u32 },
    /// The symbol characters read so far, not yet resolved to an operator.
    InOperator(Seq<char>),
}

/// What one call of the tokenizer does: the state it leaves and what it
/// returns.
pub struct LexStep {
    pub next: LexState,
    pub out: Result<Option<TokenView>, LexError>,
}

/// Whitespace separates tokens: the space and the control characters from
/// tab to carriage return.
pub open spec fn is_space(c: char) -> bool {
    c == ' ' || ('\t' <= c && c <= '\r')
}

/// The value of a letter or digit as a digit, whatever the radix: `0` to `9`
/// for the decimal digits, `10` to `35` for the letters of either case.
pub open spec fn digit_of(c: char) -> Option<u32> {
    if '0' <= c && c <= '9' {
        Some((c as u32 - '0' as u32) as u32)
    } else if 'a' <= c && c <= 'z' {
        Some((c as u32 - 'a' as u32 + 10) as u32)
    } else if 'A' <= c && c <= 'Z' {
        Some((c as u32 - 'A' as u32 + 10) as u32)
    } else {
        None
    }
}

/// The characters that end an operator: letters, digits, signs, parentheses
/// and whitespace. Every other character extends it.
pub open spec fn ends_operator(c: char) -> bool {
    digit_of(c) is Some || c == '+' || c == '-' || c == '(' || c == ')' || is_space(c)
}

/// The state in which a character puts an idle tokenizer.
pub open spec fn begin_state(c: char) -> LexState {
    if c == '0' {
        LexState::InNumber { value: 0, radix: 8 }
    } else if '1' <= c && c <= '9' {
        LexState::InNumber { value: (c as u32 - '0' as u32) as int, radix: 10 }
    } else if c == '+' {
        LexState::Pending(TokenView::Op(Operator::Add))
    } else if c == '-' {
        LexState::Pending(TokenView::Op(Operator::Sub))
    } else if c == '(' {
        LexState::Pending(TokenView::ParenOpen)
    } else if c == ')' {
        LexState::Pending(TokenView::ParenClose)
    } else if is_space(c) {
        LexState::Idle
    } else {
        LexState::InOperator(seq![c])
    }
}

/// The token that a finished run of operator characters spells, if any.
pub open spec fn resolve_operator(text: Seq<char>) -> Option<TokenView> {
    if text == seq!['+'] {
        Some(TokenView::Op(Operator::Add))
    } else if text == seq!['-'] {
        Some(TokenView::Op(Operator::Sub))
    } else if text == seq!['/'] {
        Some(TokenView::Op(Operator::Div))
    } else if text == seq!['('] {
        Some(TokenView::ParenOpen)
    } else if text == seq![')'] {
        Some(TokenView::ParenClose)
    } else if text == seq!['*'] {
        Some(TokenView::Op(Operator::Mul))
    } else if text == seq!['*', '*'] {
        Some(TokenView::Op(Operator::Pow))
    } else {
        None
    }
}

/// What a finished run of operator characters yields: its token, or the
/// error that holds the run.
pub open spec fn close_operator(text: Seq<char>) -> Result<Option<TokenView>, LexError> {
    match resolve_operator(text) {
        Some(token) => Ok(Some(token)),
        None => Err(LexError::UnknownOperation(text)),
    }
}

/// One step of the tokenizer on the character `c`.
///
/// An error leaves the tokenizer idle.
pub open spec fn lex_step(state: LexState, c: char) -> LexStep {
    match state {
        LexState::Idle => LexStep { next: begin_state(c), out: Ok(None) },
        LexState::Pending(token) => LexStep { next: begin_state(c), out: Ok(Some(token)) },
        LexState::InNumber { value, radix } => {
            if c == 'x' && value == 0 && radix == 8 {
                LexStep { next: LexState::InNumber { value, radix: 16 }, out: Ok(None) }
            } else if c == 'b' && value == 0 && radix == 8 {
                LexStep { next: LexState::InNumber { value, radix: 2 }, out: Ok(None) }
            } else {
                match digit_of(c) {
                    Some(digit) => if digit < radix {
                        LexStep {
                            next: LexState::InNumber { value: value * radix + digit, radix },
                            out: Ok(None),
                        }
                    } else {
                        LexStep { next: LexState::Idle, out: Err(LexError::InvalidNumber) }
                    },
                    None => LexStep {
                        next: begin_state(c),
                        out: Ok(Some(TokenView::Val(value))),
                    },
                }
            }
        },
        LexState::InOperator(text) => {
            if ends_operator(c) {
                match close_operator(text) {
                    Ok(out) => LexStep { next: begin_state(c), out: Ok(out) },
                    Err(e) => LexStep { next: LexState::Idle, out: Err(e) },
                }
            } else {
                LexStep { next: LexState::InOperator(text.push(c)), out: Ok(None) }
            }
        },
    }
}

/// What the tokenizer returns when the input ends in `state`. The tokenizer
/// is idle afterwards, whatever it returns.
pub open spec fn lex_flush(state: LexState) -> Result<Option<TokenView>, LexError> {
    match state {
        LexState::Idle => Ok(None),
        LexState::Pending(token) => Ok(Some(token)),
        LexState::InNumber { value, radix } => Ok(Some(TokenView::Val(value))),
        LexState::InOperator(text) => close_operator(text),
    }
}

/// The states that the tokenizer can be in: a token held back is a sign or a
/// parenthesis; a number is not negative and is read in radix 2, 8, 10 or
/// 16; a run of operator characters starts with a character that begins
/// one and goes on with characters that do not end one.
pub open spec fn well_formed(state: LexState) -> bool {
    match state {
        LexState::Idle => true,
        LexState::Pending(token) => {
            ||| token == TokenView::Op(Operator::Add)
            ||| token == TokenView::Op(Operator::Sub)
            ||| token == TokenView::ParenOpen
            ||| token == TokenView::ParenClose
        },
        LexState::InNumber { value, radix } => {
            &&& value >= 0
            &&& (radix == 2 || radix == 8 || radix == 10 || radix == 16)
        },
        LexState::InOperator(text) => {
            &&& text.len() > 0
            &&& begin_state(text[0]) is InOperator
            &&& forall|i: int| 1 <= i < text.len() ==> !ends_operator(#[trigger] text[i])
        },
    }
}

/// Every character puts an idle tokenizer in one of its states.
pub proof fn lemma_begin_state_well_formed(c: char)
    ensures
        well_formed(begin_state(c)),
{
}

/// A step leaves the tokenizer in one of its states, and a number that it
/// returns is not negative.
pub proof fn lemma_step_well_formed(state: LexState, c: char)
    requires
        well_formed(state),
    ensures
        well_formed(lex_step(state, c).next),
        lex_step(state, c).out matches Ok(Some(TokenView::Val(v))) ==> v >= 0,
{
    lemma_begin_state_well_formed(c);
    match state {
        LexState::InNumber { value, radix } => {
            assert(value * radix >= 0) by (nonlinear_arith)
                requires
                    value >= 0,
                    radix >= 0,
            ;
        },
        _ => {},
    }
}

/// What a call of the tokenizer returned, as a mathematical value.
pub open spec fn token_result_view(res: Result<Option<Token>, TokenizeError>) -> Result<
    Option<TokenView>,
    LexError,
> {
    match res {
        Ok(Some(token)) => Ok(Some(token@)),
        Ok(None) => Ok(None),
        Err(e) => Err(e@),
    }
}

/// The state of the tokenizer.
#[derive(Debug)]
enum TokenizerState {
    Idle,
    Pending(Token),
    InNumber { value: Value, radix: u32 },
    InOperator(CompactString),
}

impl View for TokenizerState {
    type V = LexState;

    closed spec fn view(&self) -> LexState {
        match *self {
            TokenizerState::Idle => LexState::Idle,
            TokenizerState::Pending(token) => LexState::Pending(token@),
            TokenizerState::InNumber { value, radix } => LexState::InNumber {
                value: int_value(value),
                radix,
            },
            TokenizerState::InOperator(text) => LexState::InOperator(buffer_chars(text)),
        }
    }
}

/// The tokenizer. It holds at most one unfinished token.
#[derive(Debug)]
pub struct Tokenizer {
    state: TokenizerState,
}

impl View for Tokenizer {
    type V = LexState;

    closed spec fn view(&self) -> LexState {
        self.state@
    }
}

impl Tokenizer {
    /// The tokenizer is always in one of its states.
    #[verifier::type_invariant]
    spec fn in_a_state(self) -> bool {
        well_formed(self.state@)
    }
}

impl Default for Tokenizer {
    /// An idle tokenizer.
    fn default() -> (r: Self)
        ensures
            r@ == LexState::Idle,
    {
        Tokenizer { state: TokenizerState::Idle }
    }
}

impl vstd::std_specs::convert::FromSpecImpl<i64> for Token {
    /// A number has no canonical representation to name, so the conversion
    /// is specified by its view alone, in the contract of `from`.
    open spec fn obeys_from_spec() -> bool {
        false
    }

    open spec fn from_spec(v: i64) -> Token {
        Token::Val(choose|x: Value| int_value(x) == v)
    }
}

impl From<i64> for Token {
    /// The number token that holds `value`.
    fn from(value: i64) -> (r: Self)
        ensures
            r@ == TokenView::Val(value as int),
    {
        Token::Val(int_from_i64(value))
    }
}

/// Whether `c` separates tokens.
fn is_whitespace(c: char) -> (r: bool)
    ensures
        r == is_space(c),
{
    c == ' ' || ('\t' <= c && c <= '\r')
}

/// The value of `c` as a digit, if it is a letter or a digit.
fn digit_value(c: char) -> (r: Option<u32>)
    ensures
        r == digit_of(c),
{
    if '0' <= c && c <= '9' {
        Some(c as u32 - '0' as u32)
    } else if 'a' <= c && c <= 'z' {
        Some(c as u32 - 'a' as u32 + 10)
    } else if 'A' <= c && c <= 'Z' {
        Some(c as u32 - 'A' as u32 + 10)
    } else {
        None
    }
}

/// The state in which `c` puts an idle tokenizer.
fn begin_token(c: char) -> (r: TokenizerState)
    ensures
        r@ == begin_state(c),
{
    if c == '0' {
        TokenizerState::InNumber { value: int_from_u32(0), radix: 8 }
    } else if '1' <= c && c <= '9' {
        TokenizerState::InNumber { value: int_from_u32(c as u32 - '0' as u32), radix: 10 }
    } else if c == '+' {
        TokenizerState::Pending(Token::Op(Operator::Add))
    } else if c == '-' {
        TokenizerState::Pending(Token::Op(Operator::Sub))
    } else if c == '(' {
        TokenizerState::Pending(Token::ParenOpen)
    } else if c == ')' {
        TokenizerState::Pending(Token::ParenClose)
    } else if is_whitespace(c) {
        TokenizerState::Idle
    } else {
        TokenizerState::InOperator(buffer_from_char(c))
    }
}

/// The token that the operator text `op` spells, if any.
pub fn finalize_operator(op: &str) -> (r: Option<Token>)
    ensures
        match r {
            Some(token) => resolve_operator(op@) == Some(token@),
            None => resolve_operator(op@) is None,
        },
{
    let n = op.unicode_len();
    if n == 1 {
        let c = op.get_char(0);
        assert(op@ =~= seq![c]);
        if c == '+' {
            Some(Token::Op(Operator::Add))
        } else if c == '-' {
            Some(Token::Op(Operator::Sub))
        } else if c == '/' {
            Some(Token::Op(Operator::Div))
        } else if c == '(' {
            Some(Token::ParenOpen)
        } else if c == ')' {
            Some(Token::ParenClose)
        } else if c == '*' {
            Some(Token::Op(Operator::Mul))
        } else {
            assert(seq!['+'][0] == '+' && seq!['-'][0] == '-' && seq!['/'][0] == '/');
            assert(seq!['('][0] == '(' && seq![')'][0] == ')' && seq!['*'][0] == '*');
            None
        }
    } else if n == 2 {
        let c0 = op.get_char(0);
        let c1 = op.get_char(1);
        assert(op@ =~= seq![c0, c1]);
        if c0 == '*' && c1 == '*' {
            Some(Token::Op(Operator::Pow))
        } else {
            assert(seq!['*', '*'][0] == '*' && seq!['*', '*'][1] == '*');
            None
        }
    } else {
        None
    }
}

/// What a finished operator buffer yields: its token, or the error that
/// holds the buffer.
fn close_buffer(op: CompactString) -> (res: Result<Option<Token>, TokenizeError>)
    ensures
        token_result_view(res) == close_operator(buffer_chars(op)),
{
    match finalize_operator(buffer_as_str(&op)) {
        Some(token) => Ok(Some(token)),
        None => Err(TokenizeError::UnknownOperation(op)),
    }
}

impl Tokenizer {
    /// Feeds one character. Returns the token that the character finished, if
    /// it finished one, and keeps what it began.
    ///
    /// The character is an error where it is a letter or digit in a number
    /// that is no digit of the number's radix, or where it ends a run of
    /// symbol characters that spells no operator. An error leaves the
    /// tokenizer idle.
    ///
    /// Before and after the call the tokenizer is in one of its states, so a
    /// number that it returns is never negative.
    pub fn update(&mut self, c: char) -> (res: Result<Option<Token>, TokenizeError>)
        ensures
            final(self)@ == lex_step(old(self)@, c).next,
            token_result_view(res) == lex_step(old(self)@, c).out,
            well_formed(old(self)@),
            well_formed(final(self)@),
            res matches Ok(Some(Token::Val(v))) ==> int_value(v) >= 0,
    {
        proof {
            use_type_invariant(&*self);
            lemma_step_well_formed(self@, c);
        }
        let mut state = TokenizerState::Idle;
        core::mem::swap(&mut self.state, &mut state);
        match state {
            TokenizerState::Idle => {
                self.state = begin_token(c);
                Ok(None)
            },
            TokenizerState::Pending(token) => {
                self.state = begin_token(c);
                Ok(Some(token))
            },
            TokenizerState::InNumber { value, radix } => {
                if c == 'x' && radix == 8 && int_eq_u32(&value, 0) {
                    self.state = TokenizerState::InNumber { value, radix: 16 };
                    Ok(None)
                } else if c == 'b' && radix == 8 && int_eq_u32(&value, 0) {
                    self.state = TokenizerState::InNumber { value, radix: 2 };
                    Ok(None)
                } else {
                    match digit_value(c) {
                        Some(digit) => {
                            if digit < radix {
                                let shifted = int_mul(&value, &int_from_u32(radix));
                                let value = int_add(&shifted, &int_from_u32(digit));
                                self.state = TokenizerState::InNumber { value, radix };
                                Ok(None)
                            } else {
                                Err(TokenizeError::InvalidNumber)
                            }
                        },
                        None => {
                            self.state = begin_token(c);
                            Ok(Some(Token::Val(value)))
                        },
                    }
                }
            },
            TokenizerState::InOperator(mut op) => {
                if digit_value(c).is_some() || c == '+' || c == '-' || c == '(' || c == ')'
                    || is_whitespace(c) {
                    let res = close_buffer(op);
                    if res.is_ok() {
                        self.state = begin_token(c);
                    }
                    res
                } else {
                    buffer_push(&mut op, c);
                    self.state = TokenizerState::InOperator(op);
                    Ok(None)
                }
            },
        }
    }

    /// Ends the input: returns the token that was still buffered, if any, and
    /// leaves the tokenizer idle, ready for the next input.
    ///
    /// It is an error where a run of symbol characters is buffered that spells
    /// no operator. A number that it returns is never negative.
    pub fn finalize(&mut self) -> (res: Result<Option<Token>, TokenizeError>)
        ensures
            final(self)@ == LexState::Idle,
            token_result_view(res) == lex_flush(old(self)@),
            well_formed(old(self)@),
            res matches Ok(Some(Token::Val(v))) ==> int_value(v) >= 0,
    {
        proof {
            use_type_invariant(&*self);
        }
        let mut state = TokenizerState::Idle;
        core::mem::swap(&mut self.state, &mut state);
        match state {
            TokenizerState::Idle => Ok(None),
            TokenizerState::Pending(token) => Ok(Some(token)),
            TokenizerState::InNumber { value, radix } => Ok(Some(Token::Val(value))),
            TokenizerState::InOperator(op) => close_buffer(op),
        }
    }
}

} // verus!
