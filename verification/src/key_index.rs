//! The key index: where the latest point of each primary key lies.

use hashbrown::HashMap;
use vstd::prelude::*;

verus! {

/// Where a point lies: a position in the chain's block list, and an offset
/// within that block.
pub type Slot = (usize, usize);

/// A map from primary keys to slots, kept in a `hashbrown::HashMap`.
///
/// Verus does not look inside: what the map holds is `index_entries`, and the
/// functions below say what each of the map's methods does to it.
#[verifier::external_body]
#[derive(Debug)]
pub struct KeyIndex {
    entries: HashMap<u64, Slot>,
}

/// The entries of an index.
pub uninterp spec fn index_entries(index: &KeyIndex) -> Map<u64, Slot>;

impl View for KeyIndex {
    type V = Map<u64, Slot>;

    open spec fn view(&self) -> Map<u64, Slot> {
        index_entries(self)
    }
}

/// `HashMap::new`: the new map has no entries.
#[verifier::external_body]
pub(crate) fn index_new() -> (index: KeyIndex)
    ensures
        (index_entries(&index) == Map::<u64, Slot>::empty()),
{
    KeyIndex { entries: HashMap::new() }
}

/// `HashMap::insert`: afterwards the key maps to the new value, whether or not
/// it was present before, and every other key is as it was.
#[verifier::external_body]
pub(crate) fn index_insert(index: &mut KeyIndex, key: u64, slot: Slot)
    ensures
        index_entries(final(index)) == index_entries(old(index)).insert(key, slot),
{
    index.entries.insert(key, slot);
}

/// `HashMap::get`: the value that the key maps to, if the key is present.
#[verifier::external_body]
pub(crate) fn index_get(index: &KeyIndex, key: u64) -> (found: Option<Slot>)
    ensures
        found == (if index_entries(index).contains_key(key) {
            Some(index_entries(index)[key])
        } else {
            None
        }),
{
    index.entries.get(&key).copied()
}

/// `HashMap::iter`: every entry once, in no particular order. Each comes out
/// as key, block position and offset.
#[verifier::external_body]
pub(crate) fn index_pairs(index: &KeyIndex) -> (pairs: Vec<(u64, usize, usize)>)
    ensures
        forall|i: int|
            0 <= i < pairs@.len() ==> index_entries(index).contains_pair(
                #[trigger] pairs@[i].0,
                (pairs@[i].1, pairs@[i].2),
            ),
        forall|key: u64| #[trigger]
            index_entries(index).contains_key(key) ==> exists|i: int|
                0 <= i < pairs@.len() && pairs@[i].0 == key,
        forall|i: int, j: int|
            0 <= i < j < pairs@.len() ==> pairs@[i].0 != pairs@[j].0,
{
    index.entries.iter().map(|(key, slot)| (*key, slot.0, slot.1)).collect()
}

} // verus!
