//! An incremental arithmetic evaluator over arbitrary-precision integers.
//!
//! A [`tokenizer::Tokenizer`] turns characters into tokens, one character at
//! a time; a [`calculator::Calculator`] turns tokens into a value, one token
//! at a time, with operator precedence, parentheses, unary signs and implicit
//! multiplication. [`evaluate::evaluate`] runs both over a text.
//!
//! Every function is verified against a mathematical description of the two
//! machines; [`laws`] proves what follows from it for all inputs. The
//! integers are `malachite`'s and the operator buffer is `compact_str`'s:
//! [`bigint`] and [`opbuf`] hold what is assumed of them.

pub mod bigint;
pub mod calculator;
pub mod evaluate;
pub mod laws;
pub mod opbuf;
pub mod tokenizer;
