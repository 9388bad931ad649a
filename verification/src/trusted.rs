//! The few calls into unverified code that the library relies on, each
//! behind a contract.

use vstd::prelude::*;
use crate::protocol::joined;
use crate::protocol::views_of;

verus! {

/// Relies on rand::random_range: returns a uniformly sampled value of the
/// given range, and panics only when the range is empty (ruled out here by
/// `bound > 0`).  Nothing more is promised of a random draw than its range.
#[verifier::external_body]
pub(crate) fn random_below(bound: usize) -> (r: usize)
    requires
        bound > 0,
    ensures
        r < bound,
{
    rand::random_range(0..bound)
}

/// Relies on itertools::join: combines the items' display text into one
/// string with the separator between consecutive items.  A `String`
/// displays as its own characters.
#[verifier::external_body]
pub(crate) fn join_all(parts: &Vec<String>, sep: &str) -> (r: String)
    ensures
        r@ == joined(views_of(parts@), sep@),
{
    itertools::join(parts.iter(), sep)
}

/// Relies on String::push: appends exactly the given character.
#[verifier::external_body]
pub(crate) fn push_char(s: &mut String, c: char)
    ensures
        final(s)@ == old(s)@.push(c),
{
    s.push(c);
}

} // verus!
