//! The table of embedded assets.
//!
//! The table is the hash map of `bevy`. Nothing in this file is proved: each
//! function states what the map's own method does, over the name
//! [`table_contents`], and the rest of the crate is proved from these
//! statements.

use vstd::prelude::*;

verus! {

/// A hash map of `bevy` from the path of an asset to its bytes. Both are
/// borrowed for the life of the process: the bytes of an asset are never
/// copied, freed or changed.
#[verifier::external_body]
#[derive(Debug)]
pub struct AssetTable {
    inner: bevy::utils::HashMap<&'static str, &'static [u8]>,
}

/// What a table holds: the bytes of each asset under the characters of its
/// path. Two paths are the same key exactly when they hold the same
/// characters, which is how `str` is compared and hashed.
pub uninterp spec fn table_contents(table: AssetTable) -> Map<Seq<char>, Seq<u8>>;

/// What a table without assets holds.
pub open spec fn no_assets() -> Map<Seq<char>, Seq<u8>> {
    Map::empty()
}

/// The characters of each of `keys`, in the same order.
pub open spec fn key_views(keys: Seq<&'static str>) -> Seq<Seq<char>> {
    keys.map_values(|key: &'static str| key@)
}

/// `HashMap::default`: a table that holds nothing.
#[verifier::external_body]
pub(crate) fn table_new() -> (table: AssetTable)
    ensures
        table_contents(table) == no_assets(),
{
    AssetTable { inner: bevy::utils::HashMap::default() }
}

/// `HashMap::insert`: afterwards `path` leads to `data`, whether or not it
/// led to anything before, and every other path leads to what it led to.
#[verifier::external_body]
pub(crate) fn table_insert(table: &mut AssetTable, path: &'static str, data: &'static [u8])
    ensures
        table_contents(*final(table)) == table_contents(*old(table)).insert(path@, data@),
{
    table.inner.insert(path, data);
}

/// `HashMap::get`: the bytes that `path` leads to, or `None` when the table
/// has no such path.
#[verifier::external_body]
pub(crate) fn table_get(table: &AssetTable, path: &str) -> (found: Option<&'static [u8]>)
    ensures
        found is Some == table_contents(*table).contains_key(path@),
        found is Some ==> found->0@ == table_contents(*table)[path@],
{
    table.inner.get(path).copied()
}

/// `HashMap::contains_key`: whether the table has the path `path`.
#[verifier::external_body]
pub(crate) fn table_contains_key(table: &AssetTable, path: &str) -> (found: bool)
    ensures
        found == table_contents(*table).contains_key(path@),
{
    table.inner.contains_key(path)
}

/// `HashMap::keys`, collected: every path of the table once, in an order
/// that nothing is said about.
#[verifier::external_body]
pub(crate) fn table_keys(table: &AssetTable) -> (keys: Vec<&'static str>)
    ensures
        key_views(keys@).no_duplicates(),
        key_views(keys@).to_set() == table_contents(*table).dom(),
{
    table.inner.keys().copied().collect()
}

} // verus!
