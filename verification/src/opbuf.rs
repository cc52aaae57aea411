//! The text buffer in which the tokenizer gathers the characters of an
//! operator.
//!
//! The buffer is a `compact_str::CompactString`. Verus cannot look inside one,
//! so the three operations the tokenizer needs are thin functions whose
//! contracts are taken on trust from `compact_str`'s documentation and source.
//! Contracts speak of a buffer through [`buffer_chars`], the characters that
//! it holds.

use compact_str::{CompactString, ToCompactString};
use vstd::prelude::*;

verus! {

/// `compact_str::CompactString`, opaque to the verifier.
#[verifier::external_type_specification]
#[verifier::external_body]
pub struct ExCompactString(CompactString);

/// The characters that a `CompactString` holds, in order.
pub uninterp spec fn buffer_chars(s: CompactString) -> Seq<char>;

/// `ToCompactString::to_compact_string` on a `char`: the one-character string.
#[verifier::external_body]
pub(crate) fn buffer_from_char(c: char) -> (r: CompactString)
    ensures
        buffer_chars(r) == seq![c],
{
    c.to_compact_string()
}

/// `CompactString::push`: appends one character at the end.
#[verifier::external_body]
pub(crate) fn buffer_push(s: &mut CompactString, c: char)
    ensures
        buffer_chars(*final(s)) == buffer_chars(*old(s)).push(c),
{
    s.push(c)
}

/// `CompactString::as_str`: the whole content as a string slice.
#[verifier::external_body]
pub(crate) fn buffer_as_str(s: &CompactString) -> (r: &str)
    ensures
        r@ == buffer_chars(*s),
{
    s.as_str()
}

} // verus!
