//! Unicode properties of text.
use crate::text::{ascii_lower_spec, is_control_spec};
use unicode_width::UnicodeWidthChar;
use vstd::prelude::*;
use vstd::utf8::is_ascii_chars;

verus! {

/// The lower-case form of a text by Unicode's rules.
pub uninterp spec fn lowercase_spec(s: Seq<char>) -> Seq<char>;

/// `str::to_lowercase`: the lower-case form of the text, by the rules of Unicode. By these, the
/// letters from A to Z become those from a to z, and other ASCII characters stay as they are.
#[verifier::external_body]
pub(crate) fn lowercase(s: &str) -> (r: String)
    ensures
        r@ == lowercase_spec(s@),
        is_ascii_chars(s@) ==> r@ == ascii_lower_spec(s@),
{
    s.to_lowercase()
}

/// The columns that a character takes on a terminal; control characters have none to tell.
pub uninterp spec fn char_columns(c: char) -> Option<usize>;

/// `UnicodeWidthChar::width` of unicode-width: the columns that a character takes. Control
/// characters alone have no width, and printable ASCII characters take one column.
#[verifier::external_body]
pub(crate) fn char_width(c: char) -> (r: Option<usize>)
    ensures
        r == char_columns(c),
        r is None <==> is_control_spec(c),
        ' ' <= c <= '~' ==> r == Some(1usize),
{
    c.width()
}

/// The notation of a text as a string literal, with quotes and escapes.
pub uninterp spec fn quoted_spec(s: Seq<char>) -> Seq<char>;

/// The `Debug` notation of a `str`: in double quotes, with special characters escaped.
#[verifier::external_body]
pub(crate) fn quoted(s: &str) -> (r: String)
    ensures
        r@ == quoted_spec(s@),
{
    format!("{s:?}")
}

} // verus!
