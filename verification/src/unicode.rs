//! Unicode compatibility normalisation, from the `unicode-normalization`
//! crate.

use crate::text::ascii_text;
use unicode_normalization::UnicodeNormalization;
use vstd::prelude::*;

verus! {

/// The compatibility decomposition (form KD) of a text.
pub uninterp spec fn unicode_nfkd(s: Seq<char>) -> Seq<char>;

/// The compatibility composition (form KC) of a text.
pub uninterp spec fn unicode_nfkc(s: Seq<char>) -> Seq<char>;

/// The compatibility decomposition of a text. An ASCII text decomposes to
/// itself.
pub open spec fn decomposed(s: Seq<char>) -> Seq<char> {
    if ascii_text(s) {
        s
    } else {
        unicode_nfkd(s)
    }
}

/// `UnicodeNormalization::nfkd`, collected: the decomposition of `s`. No
/// ASCII character decomposes, and none has a combining class by which it
/// could move.
#[verifier::external_body]
pub(crate) fn nfkd(s: &str) -> (r: String)
    ensures
        r@ == (if ascii_text(s@) {
            s@
        } else {
            unicode_nfkd(s@)
        }),
{
    s.nfkd().collect()
}

/// `UnicodeNormalization::nfkc`, collected: the composition of `s`.
#[verifier::external_body]
pub(crate) fn nfkc(s: &str) -> (r: String)
    ensures
        r@ == unicode_nfkc(s@),
{
    s.nfkc().collect()
}

} // verus!
