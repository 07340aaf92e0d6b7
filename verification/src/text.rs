//! Building strings from characters.
use vstd::prelude::*;

verus! {

/// `String::from_iter`: the string of the given characters, in order.
#[verifier::external_body]
pub(crate) fn string_from_chars(cs: Vec<char>) -> (s: String)
    ensures
        s@ == cs@,
{
    String::from_iter(cs)
}

} // verus!
