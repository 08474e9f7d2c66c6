//! The lookup structure of a bracket: an insertion-ordered map from the key
//! of a game to the place where the game is stored.

use vstd::prelude::*;
use linked_hash_map::LinkedHashMap;

verus! {

/// `linked_hash_map::LinkedHashMap`: a hash map that hands its entries out
/// in the order in which they were inserted. Nothing of its inside is known
/// here.
#[verifier::external_type_specification]
#[verifier::external_body]
#[verifier::reject_recursive_types(K)]
#[verifier::reject_recursive_types(V)]
#[verifier::reject_recursive_types(S)]
pub struct ExLinkedHashMap<K, V, S>(LinkedHashMap<K, V, S>);

/// The entries of an index, oldest first: the key of a game as
/// `(round, position)`, and the slot in which the game is stored.
pub uninterp spec fn index_entries(index: LinkedHashMap<(u64, u64), usize>) -> Seq<((u64, u64), usize)>;

/// `LinkedHashMap::new`: a map without entries.
#[verifier::external_body]
pub(crate) fn index_new() -> (index: LinkedHashMap<(u64, u64), usize>)
    ensures
        index_entries(index) == Seq::<((u64, u64), usize)>::empty(),
{
    LinkedHashMap::new()
}

/// `LinkedHashMap::get`: the value of an entry with the key `key`, or
/// nothing if no entry has that key.
#[verifier::external_body]
pub(crate) fn index_get(index: &LinkedHashMap<(u64, u64), usize>, key: (u64, u64)) -> (slot: Option<
    usize,
>)
    ensures
        match slot {
            Some(s) => exists|i: int|
                0 <= i < index_entries(*index).len() && #[trigger] index_entries(*index)[i] == (key, s),
            None => forall|i: int|
                0 <= i < index_entries(*index).len() ==> (#[trigger] index_entries(*index)[i]).0 != key,
        },
{
    index.get(&key).copied()
}

/// `LinkedHashMap::insert`: a key that no entry has is appended with its
/// value as the youngest entry, and nothing is returned; a key that an entry
/// has gets the new value and becomes the youngest entry, and the former
/// value is returned.
#[verifier::external_body]
pub(crate) fn index_insert(
    index: &mut LinkedHashMap<(u64, u64), usize>,
    key: (u64, u64),
    slot: usize,
) -> (former: Option<usize>)
    ensures
        match former {
            None => {
                &&& forall|i: int|
                    0 <= i < index_entries(*old(index)).len() ==> (#[trigger] index_entries(
                        *old(index),
                    )[i]).0 != key
                &&& index_entries(*final(index)) == index_entries(*old(index)).push((key, slot))
            },
            Some(value) => (exists|i: int|
                0 <= i < index_entries(*old(index)).len() && #[trigger] index_entries(*old(index))[i] == (
                    key,
                    value,
                ) && index_entries(*final(index)) == index_entries(*old(index)).remove(i).push((key, slot))),
        },
{
    index.insert(key, slot)
}

/// `LinkedHashMap::len`: the number of entries.
#[verifier::external_body]
pub(crate) fn index_len(index: &LinkedHashMap<(u64, u64), usize>) -> (len: usize)
    ensures
        len == index_entries(*index).len(),
{
    index.len()
}

/// `LinkedHashMap::keys`: the keys of the entries, oldest first.
#[verifier::external_body]
pub(crate) fn index_keys(index: &LinkedHashMap<(u64, u64), usize>) -> (keys: Vec<(u64, u64)>)
    ensures
        keys@.len() == index_entries(*index).len(),
        forall|i: int| 0 <= i < keys@.len() ==> #[trigger] keys@[i] == index_entries(*index)[i].0,
{
    index.keys().copied().collect()
}

} // verus!
