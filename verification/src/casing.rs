//! Changing the case of names.
//!
//! Both conversions are made outside this crate and are not verified; each
//! result has a name that the contracts of this crate speak of.

use vstd::prelude::*;
use convert_case::{Case, Casing};

verus! {

/// `s` in snake case, as the `convert_case` crate writes it: the words of `s`
/// in lower case, joined by underscores.
pub uninterp spec fn snake_case(s: Seq<char>) -> Seq<char>;

/// Calls `Casing::to_case` with `Case::Snake`. The contract names the result.
#[verifier::external_body]
pub(crate) fn to_snake_case(s: &str) -> (r: String)
    ensures
        r@ == snake_case(s@),
{
    s.to_case(Case::Snake)
}

/// `s` with every character in lower case, as `str::to_lowercase` gives it.
pub uninterp spec fn lowercase(s: Seq<char>) -> Seq<char>;

/// Calls `str::to_lowercase`. The contract names the result.
#[verifier::external_body]
pub(crate) fn to_lowercase(s: &str) -> (r: String)
    ensures
        r@ == lowercase(s@),
{
    s.to_lowercase()
}

} // verus!
