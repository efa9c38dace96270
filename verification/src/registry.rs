//! The registry of embedded assets as a mathematical map, and what each
//! query answers from it.
//!
//! A registry maps the characters of a path to the bytes of the asset
//! embedded under that path. It has no folders of its own: a folder exists as
//! far as some registered path lies below it.

use crate::asset_table::no_assets;
use crate::path::{meta_path, spec_is_descendant};
use vstd::prelude::*;

verus! {

/// The bytes registered under exactly `path`, if there are any.
pub open spec fn lookup(assets: Map<Seq<char>, Seq<u8>>, path: Seq<char>) -> Option<Seq<u8>> {
    if assets.contains_key(path) {
        Some(assets[path])
    } else {
        None
    }
}

/// What a read comes to.
pub enum Answer {
    /// These bytes, embedded under the path that was asked for.
    Embedded(Seq<u8>),
    /// Whatever the fallback answers when it is asked for this path.
    AskFallback(Seq<char>),
    /// Nothing: this path is not known.
    NotFound(Seq<char>),
}

/// What reading `path` comes to: the bytes registered under exactly `path`;
/// without them, the fallback asked for `path`; without a fallback, nothing.
pub open spec fn read_answer(
    assets: Map<Seq<char>, Seq<u8>>,
    has_fallback: bool,
    path: Seq<char>,
) -> Answer {
    match lookup(assets, path) {
        Some(bytes) => Answer::Embedded(bytes),
        None => if has_fallback {
            Answer::AskFallback(path)
        } else {
            Answer::NotFound(path)
        },
    }
}

/// What reading the metadata of `path` comes to: the bytes registered under
/// the metadata path of `path`; without them, the fallback asked for `path`
/// itself, whose metadata it finds in its own way; without a fallback,
/// nothing under the metadata path.
pub open spec fn read_meta_answer(
    assets: Map<Seq<char>, Seq<u8>>,
    has_fallback: bool,
    path: Seq<char>,
) -> Answer {
    match lookup(assets, meta_path(path)) {
        Some(bytes) => Answer::Embedded(bytes),
        None => if has_fallback {
            Answer::AskFallback(path)
        } else {
            Answer::NotFound(meta_path(path))
        },
    }
}

/// `dir` is a folder of the registry: some registered path lies below it.
pub open spec fn is_directory_in(assets: Map<Seq<char>, Seq<u8>>, dir: Seq<char>) -> bool {
    exists|key: Seq<char>| #[trigger] assets.contains_key(key) && spec_is_descendant(dir, key)
}

/// Every registered path that lies below `dir`, directly or not.
pub open spec fn directory_listing(assets: Map<Seq<char>, Seq<u8>>, dir: Seq<char>) -> Set<
    Seq<char>,
> {
    Set::new(|key: Seq<char>| assets.contains_key(key) && spec_is_descendant(dir, key))
}

/// The registry that results from registering `entries` one after the other
/// in an empty registry. An entry replaces an earlier one of the same path.
pub open spec fn assets_of(entries: Seq<(&'static str, &'static [u8])>) -> Map<
    Seq<char>,
    Seq<u8>,
>
    decreases entries.len(),
{
    if entries.len() == 0 {
        no_assets()
    } else {
        assets_of(entries.drop_last()).insert(entries.last().0@, entries.last().1@)
    }
}

/// A folder is a folder exactly when its listing is not empty.
pub proof fn lemma_directory_listing_nonempty(assets: Map<Seq<char>, Seq<u8>>, dir: Seq<char>)
    ensures
        is_directory_in(assets, dir) <==> exists|key: Seq<char>|
            directory_listing(assets, dir).contains(key),
{
    if is_directory_in(assets, dir) {
        let key = choose|key: Seq<char>| #[trigger]
            assets.contains_key(key) && spec_is_descendant(dir, key);
        assert(directory_listing(assets, dir).contains(key));
    }
    if exists|key: Seq<char>| directory_listing(assets, dir).contains(key) {
        let key = choose|key: Seq<char>| directory_listing(assets, dir).contains(key);
        assert(assets.contains_key(key) && spec_is_descendant(dir, key));
    }
}

/// The paths of `assets_of(entries)` are the paths of the entries, and each
/// leads to the bytes of the last entry that names it.
pub proof fn lemma_assets_of(entries: Seq<(&'static str, &'static [u8])>)
    ensures
        forall|path: Seq<char>| #[trigger]
            assets_of(entries).contains_key(path) <==> exists|i: int|
                0 <= i < entries.len() && #[trigger] entries[i].0@ == path,
        forall|i: int|
            0 <= i < entries.len() && (forall|j: int|
                i < j < entries.len() ==> #[trigger] entries[j].0@ != entries[i].0@)
                ==> assets_of(entries)[#[trigger] entries[i].0@] == entries[i].1@,
    decreases entries.len(),
{
    if entries.len() > 0 {
        let front = entries.drop_last();
        let last = entries.last();
        lemma_assets_of(front);
        assert forall|path: Seq<char>| #[trigger]
            assets_of(entries).contains_key(path) <==> exists|i: int|
                0 <= i < entries.len() && #[trigger] entries[i].0@ == path by {
            if path == last.0@ {
                assert(entries[entries.len() - 1].0@ == path);
            } else if assets_of(front).contains_key(path) {
                let i = choose|i: int| 0 <= i < front.len() && #[trigger] front[i].0@ == path;
                assert(entries[i].0@ == path);
            } else if exists|i: int| 0 <= i < entries.len() && #[trigger] entries[i].0@ == path {
                let i = choose|i: int| 0 <= i < entries.len() && #[trigger] entries[i].0@ == path;
                assert(front[i].0@ == path);
            }
        }
        assert forall|i: int|
            0 <= i < entries.len() && (forall|j: int|
                i < j < entries.len() ==> #[trigger] entries[j].0@ != entries[i].0@)
                implies assets_of(entries)[#[trigger] entries[i].0@] == entries[i].1@ by {
            if i < front.len() {
                assert(entries[entries.len() - 1].0@ != entries[i].0@);
                assert(front[i] == entries[i]);
                assert forall|j: int| i < j < front.len() implies #[trigger] front[j].0@
                    != front[i].0@ by {
                    assert(entries[j].0@ != entries[i].0@);
                }
            }
        }
    }
}

} // verus!
