//! Case mapping through the standard library.
//!
//! Stream names and display symbols need Unicode case mapping, which is far
//! too large to state here; the results are given names instead, and every
//! contract that mentions case speaks through those names.

use vstd::prelude::*;

verus! {

/// The lowercase mapping of `s`, as `str::to_lowercase` computes it.
pub uninterp spec fn lower_of(s: Seq<char>) -> Seq<char>;

/// The uppercase mapping of `s`, as `str::to_uppercase` computes it.
pub uninterp spec fn upper_of(s: Seq<char>) -> Seq<char>;

/// Relies on `str::to_lowercase`: the result is the lowercase equivalent of
/// the input, a function of the input characters alone.
#[verifier::external_body]
pub fn to_lowercase(s: &str) -> (r: String)
    ensures
        r@ == lower_of(s@),
{
    s.to_lowercase()
}

/// Relies on `str::to_uppercase`: the result is the uppercase equivalent of
/// the input, a function of the input characters alone.
#[verifier::external_body]
pub fn to_uppercase(s: &str) -> (r: String)
    ensures
        r@ == upper_of(s@),
{
    s.to_uppercase()
}

} // verus!
