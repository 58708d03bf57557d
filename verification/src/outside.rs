//! The calls that are taken on trust: into `itertools`, and into the
//! standard library where it has no verified contract. Each function here
//! makes one such call; its contract says what the call is documented to
//! do, and is not proved.

use crate::text::{join_spec, texts};
use vstd::prelude::*;

verus! {

/// `String::push` of the standard library: appends the character `c` to
/// the end of `s`.
#[verifier::external_body]
pub(crate) fn push_char(s: &mut String, c: char)
    ensures
        final(s)@ == old(s)@.push(c),
{
    s.push(c)
}

/// `Itertools::join` over the strings of `parts`: every element in order,
/// with `sep` between each two neighbours and nothing at either end; the
/// empty string for no elements.
#[verifier::external_body]
pub(crate) fn join(parts: &Vec<String>, sep: &str) -> (r: String)
    ensures
        r@ == join_spec(texts(parts@), sep@),
{
    itertools::Itertools::join(&mut parts.iter(), sep)
}

/// `Itertools::tuples` over the elements of `items`, two at a time: pair
/// `i` refers to the elements `2 i` and `2 i + 1`; a last element without a
/// partner is left out.
#[verifier::external_body]
pub(crate) fn tuples<'a, T>(items: &'a Vec<T>) -> (r: Vec<(&'a T, &'a T)>)
    ensures
        r@.len() == items@.len() / 2,
        forall|i: int|
            0 <= i < r@.len() ==> *(#[trigger] r@[i]).0 == items@[2 * i] && *r@[i].1 == items@[2
                * i + 1],
{
    itertools::Itertools::tuples(items.iter()).collect()
}

} // verus!
