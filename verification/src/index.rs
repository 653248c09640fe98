//! The table from squares to slots, kept in a hash map of `bevy`.
//!
//! The map itself is code of another crate, so Verus cannot look inside it.
//! This module is the whole of what the crate believes about it: the table's
//! contents have a name, [`index_entries`], and each operation used by the
//! board is stated over that name. A square is stored as the pair of its
//! coordinates, whose hashing and equality are those of `std`'s integers.

use vstd::prelude::*;

verus! {

/// A hash map from the coordinates of a square to a slot number.
///
/// Trusted: the field is a `bevy::utils::HashMap`, which is
/// `hashbrown::HashMap` with `ahash` as its hasher. Nothing of it is visible
/// to the verifier but through the functions below, and none of them
/// depends on the order in which the map would be walked.
#[verifier::external_body]
#[derive(Debug)]
pub struct PositionIndex {
    table: bevy::utils::HashMap<(i8, i8), usize>,
}

/// The key-value pairs that a [`PositionIndex`] holds.
pub uninterp spec fn index_entries(index: PositionIndex) -> Map<(i8, i8), usize>;

/// The table without any entry.
pub open spec fn no_entries() -> Map<(i8, i8), usize> {
    Map::empty()
}

/// Trusted: `hashbrown::HashMap::new` returns a map that holds no entry.
#[verifier::external_body]
pub(crate) fn index_new() -> (fresh: PositionIndex)
    ensures
        index_entries(fresh) == no_entries(),
{
    PositionIndex { table: bevy::utils::HashMap::new() }
}

/// Trusted: `hashbrown::HashMap::insert` stores `slot` under the key
/// `(x, y)`, replacing the value of that key if it was present, and leaves
/// every other entry as it was.
#[verifier::external_body]
pub(crate) fn index_insert(index: &mut PositionIndex, x: i8, y: i8, slot: usize)
    ensures
        index_entries(*final(index)) == index_entries(*old(index)).insert((x, y), slot),
{
    index.table.insert((x, y), slot);
}

/// Trusted: `hashbrown::HashMap::get` returns the value stored under the key
/// `(x, y)`, and nothing when the key is absent.
#[verifier::external_body]
pub(crate) fn index_get(index: &PositionIndex, x: i8, y: i8) -> (slot: Option<usize>)
    ensures
        slot is Some <==> index_entries(*index).contains_key((x, y)),
        slot is Some ==> slot->Some_0 == index_entries(*index)[(x, y)],
{
    index.table.get(&(x, y)).copied()
}

/// Trusted: `hashbrown::HashMap::len` returns the number of entries.
#[verifier::external_body]
pub(crate) fn index_len(index: &PositionIndex) -> (count: usize)
    ensures
        count == index_entries(*index).len(),
{
    index.table.len()
}

} // verus!
