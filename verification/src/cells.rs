//! Terminal cell widths of shaped text.

use vstd::prelude::*;
use crate::utf8::valid_utf8;

verus! {

/// The number of terminal cells the text `s` visually occupies.
pub uninterp spec fn column_width_of(s: Seq<u8>) -> nat;

/// Relies on termwiz::cell::unicode_column_width (at the default unicode
/// version) for the cell count of a piece of text; the result is a function
/// of the text alone.
#[verifier::external_body]
pub(crate) fn unicode_column_width_bytes(b: &[u8]) -> (r: usize)
    requires
        valid_utf8(b@),
    ensures
        r == column_width_of(b@),
{
    termwiz::cell::unicode_column_width(std::str::from_utf8(b).unwrap_or(""), None)
}

} // verus!
