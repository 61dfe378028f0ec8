//! The hash tables of the `rapidhash` crate that the library keeps its lookups
//! in, with what it relies on of each.

use crate::paths;
use rapidhash::{RapidHashMap, RapidHashSet};
use vstd::prelude::*;

verus! {

/// The seeded hasher state of `rapidhash`, carried as it is.
#[verifier::external_type_specification]
#[verifier::external_body]
pub struct ExRandomState<
    const AVALANCHE: bool,
    const SPONGE: bool,
    const COMPACT: bool,
    const PROTECTED: bool,
>(rapidhash::inner::RandomState<AVALANCHE, SPONGE, COMPACT, PROTECTED>);

/// What a table from numbers to counts holds.
pub uninterp spec fn count_entries(table: RapidHashMap<u32, u32>) -> Map<u32, u32>;

/// `RapidHashMap::default`: an empty table.
#[verifier::external_body]
pub(crate) fn counts_new() -> (table: RapidHashMap<u32, u32>)
    ensures
        (count_entries(table) == Map::<u32, u32>::empty()),
{
    RapidHashMap::default()
}

/// `HashMap::get` on a `RapidHashMap`: the value that is held for the key.
#[verifier::external_body]
pub(crate) fn counts_get(table: &RapidHashMap<u32, u32>, key: u32) -> (found: Option<u32>)
    ensures
        found == (if count_entries(*table).dom().contains(key) {
            Some(count_entries(*table)[key])
        } else {
            None
        }),
{
    table.get(&key).copied()
}

/// `HashMap::insert` on a `RapidHashMap`: holds the value for the key, in the
/// place of an earlier one.
#[verifier::external_body]
pub(crate) fn counts_insert(table: &mut RapidHashMap<u32, u32>, key: u32, value: u32)
    ensures
        count_entries(*final(table)) == count_entries(*old(table)).insert(key, value),
{
    table.insert(key, value);
}

/// `HashMap::remove` on a `RapidHashMap`: holds nothing for the key any more.
#[verifier::external_body]
pub(crate) fn counts_remove(table: &mut RapidHashMap<u32, u32>, key: u32)
    ensures
        count_entries(*final(table)) == count_entries(*old(table)).remove(key),
{
    table.remove(&key);
}

/// What a table from texts to positions holds.
pub uninterp spec fn position_entries(table: RapidHashMap<String, usize>) -> Map<Seq<char>, usize>;

/// `RapidHashMap::default`: an empty table.
#[verifier::external_body]
pub(crate) fn positions_new() -> (table: RapidHashMap<String, usize>)
    ensures
        (position_entries(table) == Map::<Seq<char>, usize>::empty()),
{
    RapidHashMap::default()
}

/// `HashMap::get` on a `RapidHashMap`: the value that is held for the text.
#[verifier::external_body]
pub(crate) fn positions_get(table: &RapidHashMap<String, usize>, key: &str) -> (found: Option<usize>)
    ensures
        found == (if position_entries(*table).dom().contains(key@) {
            Some(position_entries(*table)[key@])
        } else {
            None
        }),
{
    table.get(key).copied()
}

/// `HashMap::insert` on a `RapidHashMap`: holds the value for the text, in the
/// place of an earlier one.
#[verifier::external_body]
pub(crate) fn positions_insert(table: &mut RapidHashMap<String, usize>, key: String, value: usize)
    ensures
        position_entries(*final(table)) == position_entries(*old(table)).insert(key@, value),
{
    table.insert(key, value);
}

/// The paths that a set of paths holds, each as its components.
pub uninterp spec fn path_members(set: RapidHashSet<Vec<Vec<u8>>>) -> Set<Seq<Seq<u8>>>;

/// `RapidHashSet::default`: an empty set.
#[verifier::external_body]
pub(crate) fn path_set_new() -> (set: RapidHashSet<Vec<Vec<u8>>>)
    ensures
        (path_members(set) == Set::<Seq<Seq<u8>>>::empty()),
{
    RapidHashSet::default()
}

/// `HashSet::contains` on a `RapidHashSet`: whether the path is held.
#[verifier::external_body]
pub(crate) fn path_set_contains(set: &RapidHashSet<Vec<Vec<u8>>>, parts: &Vec<Vec<u8>>) -> (held: bool)
    ensures
        held == path_members(*set).contains(paths::components(parts@)),
{
    set.contains(parts)
}

/// `HashSet::insert` on a `RapidHashSet`: holds the path, and tells whether it
/// was not held before.
#[verifier::external_body]
pub(crate) fn path_set_insert(set: &mut RapidHashSet<Vec<Vec<u8>>>, parts: Vec<Vec<u8>>) -> (added: bool)
    ensures
        added == !path_members(*old(set)).contains(paths::components(parts@)),
        path_members(*final(set)) == path_members(*old(set)).insert(paths::components(parts@)),
{
    set.insert(parts)
}

/// `HashSet::clear` on a `RapidHashSet`: holds nothing any more.
#[verifier::external_body]
pub(crate) fn path_set_clear(set: &mut RapidHashSet<Vec<Vec<u8>>>)
    ensures
        (path_members(*final(set)) == Set::<Seq<Seq<u8>>>::empty()),
{
    set.clear();
}

}
