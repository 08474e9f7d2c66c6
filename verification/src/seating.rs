//! The order in which people take their places: as they came, or shuffled.

use vstd::prelude::*;
use rand::seq::SliceRandom;
use crate::names::names_of;

verus! {

/// `SliceRandom::shuffle` of the `rand` crate, with the generator that
/// `rand::thread_rng` hands out: the names are put into a random order in
/// place. Whatever the order, the same names are there, each as often as
/// before. The generator is seeded by the operating system and is not
/// available where that fails.
#[verifier::external_body]
fn shuffle(names: &mut Vec<String>)
    ensures
        final(names)@.len() == old(names)@.len(),
        names_of(final(names)@).to_multiset() == names_of(old(names)@).to_multiset(),
{
    names.shuffle(&mut rand::thread_rng());
}

/// Puts the people in order: as given, or, if `random` is set, in a random
/// order. Either way nobody is lost and nobody is added.
pub fn arrange(people: Vec<String>, random: bool) -> (order: Vec<String>)
    ensures
        order@.len() == people@.len(),
        names_of(order@).to_multiset() == names_of(people@).to_multiset(),
        !random ==> order@ == people@,
{
    let mut order = people;
    if random {
        shuffle(&mut order);
    }
    order
}

} // verus!
