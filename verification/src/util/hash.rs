use std::collections::HashMap;
use vstd::prelude::*;
use vstd::std_specs::iter::IteratorSpec;

verus! {

broadcast use vstd::std_specs::hash::group_hash_axioms;

/// Calls `HashMap::get_mut` on an integer-keyed map.
///
/// Trusted: the contract restates std's documentation of `get_mut` (a mutable
/// reference to the value stored under the key, or `None` when the key is
/// absent) in terms of the map's view: with `None` the map is unchanged, and
/// with `Some` the map afterwards holds, under the key, whatever the
/// reference holds when the borrow ends.
#[verifier::external_body]
pub(crate) fn map_get_mut<'a, V>(m: &'a mut HashMap<u32, V>, k: u32) -> (r: Option<&'a mut V>)
    ensures
        r is None <==> !old(m)@.contains_key(k),
        r is None ==> final(m)@ == old(m)@,
        r is Some ==> *r.unwrap() == old(m)@[k],
        r is Some ==> final(m)@ == old(m)@.insert(k, *final(r.unwrap())),
{
    m.get_mut(&k)
}

/// The keys of an integer-keyed map, each once, in the order in which the
/// map hands them out.
pub(crate) fn collect_keys<V>(m: &HashMap<u32, V>) -> (r: Vec<u32>)
    ensures
        r@.to_set() == m@.dom(),
        r@.no_duplicates(),
        r@.len() == m@.dom().len(),
{
    let mut r: Vec<u32> = Vec::with_capacity(m.len());
    let ghost ks = vstd::std_specs::hash::spec_keys_iter(m).remaining();
    for k in it: m.keys()
        invariant
            it.seq() == ks,
            r@ == it.seq().take(it.index() as int).map_values(|k: &u32| *k),
    {
        r.push(*k);
    }
    assert(ks.map_values(|k: &u32| *k) == r@);
    assert(ks.unref() == r@);
    r
}

} // verus!
