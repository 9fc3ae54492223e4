use rand::seq::IndexedMutRandom;
use rand::seq::IndexedRandom;
use vstd::prelude::*;

verus! {

/// Calls `rand::random_range(low..high)` for `u32`: a value drawn from the
/// thread-local generator.
///
/// Trusted: rand documents that the value lies in the given range and that
/// an empty range panics, so the range must not be empty. Which value comes
/// out is left open.
#[verifier::external_body]
pub(crate) fn random_u32_in(low: u32, high: u32) -> (r: u32)
    requires
        low < high,
    ensures
        low <= r < high,
{
    rand::random_range(low..high)
}

/// Calls `IndexedRandom::choose` on the list with the thread-local
/// generator: one of its elements, picked at random.
///
/// Trusted: rand's source returns `None` only for an empty list, so the list
/// must not be empty, and otherwise an element at an index drawn below the
/// length. Which element comes out is left open.
#[verifier::external_body]
pub(crate) fn choose_from(items: &Vec<u32>) -> (r: u32)
    requires
        items@.len() > 0,
    ensures
        items@.contains(r),
{
    *items.choose(&mut rand::rng()).unwrap()
}

/// Calls `IndexedMutRandom::choose_mut` on the list of lists with the
/// thread-local generator: a mutable reference to one of its lists, picked
/// at random.
///
/// Trusted: rand's source returns `None` only for an empty list, so the list
/// must not be empty, and otherwise a reference to the element at an index
/// drawn below the length; what is written through it becomes that element.
/// Which element is picked is left open.
#[verifier::external_body]
pub(crate) fn choose_list_mut(lists: &mut Vec<Vec<u32>>) -> (r: &mut Vec<u32>)
    requires
        old(lists)@.len() > 0,
    ensures
        exists|i: int|
            0 <= i < old(lists)@.len() && *r == old(lists)@[i] && final(lists)@ == old(
                lists,
            )@.update(i, *final(r)),
{
    lists.choose_mut(&mut rand::rng()).unwrap()
}

/// Calls `rand::random_ratio(numerator, denominator)`: `true` with chance
/// `numerator / denominator`, from the thread-local generator.
///
/// Trusted: rand documents that a zero denominator or a numerator above the
/// denominator panics, that a zero numerator always gives `false` and a
/// numerator equal to the denominator always gives `true`. Otherwise the
/// result is left open.
#[verifier::external_body]
pub(crate) fn random_ratio(numerator: u32, denominator: u32) -> (r: bool)
    requires
        0 < denominator,
        numerator <= denominator,
    ensures
        numerator == 0 ==> !r,
        numerator == denominator ==> r,
{
    rand::random_ratio(numerator, denominator)
}

} // verus!
