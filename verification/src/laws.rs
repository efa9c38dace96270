//! What holds of the registry and its reader as a whole, whatever they hold.

use crate::asset_reader::EmbeddedAssetReader;
use crate::asset_table::no_assets;
use crate::path::{as_folder, meta_path, spec_is_descendant, SEPARATOR};
use crate::registry::{
    assets_of, directory_listing, is_directory_in, lemma_assets_of, lookup, read_answer,
    read_meta_answer, Answer,
};
use vstd::prelude::*;

verus! {

/// Round trip: what was registered under a path in an empty registry is
/// exactly what a read of that path finds, with or without a fallback.
pub proof fn lemma_round_trip(path: Seq<char>, bytes: Seq<u8>, has_fallback: bool)
    ensures
        lookup(no_assets().insert(path, bytes), path) == Some(bytes),
        read_answer(no_assets().insert(path, bytes), has_fallback, path) == Answer::Embedded(
            bytes,
        ),
{
}

/// Registering keeps every path that was there, replaces what the
/// registered path led to, and leaves what the others lead to.
pub proof fn lemma_register(
    assets: Map<Seq<char>, Seq<u8>>,
    path: Seq<char>,
    bytes: Seq<u8>,
    other: Seq<char>,
)
    ensures
        lookup(assets.insert(path, bytes), path) == Some(bytes),
        other != path ==> lookup(assets.insert(path, bytes), other) == lookup(assets, other),
        assets.contains_key(other) ==> assets.insert(path, bytes).contains_key(other),
{
}

/// Exact match: a read finds embedded bytes under a path exactly when that
/// very path is registered, and then the bytes registered under it.
pub proof fn lemma_exact_match(
    assets: Map<Seq<char>, Seq<u8>>,
    has_fallback: bool,
    path: Seq<char>,
)
    ensures
        read_answer(assets, has_fallback, path) is Embedded <==> assets.contains_key(path),
        assets.contains_key(path) ==> read_answer(assets, has_fallback, path) == Answer::Embedded(
            assets[path],
        ),
{
}

/// Exact match: a path is not found under a different path, be one the
/// front or the end of the other.
pub proof fn lemma_other_path_is_not_matched(
    registered: Seq<char>,
    bytes: Seq<u8>,
    path: Seq<char>,
    has_fallback: bool,
)
    requires
        path != registered,
    ensures
        lookup(no_assets().insert(registered, bytes), path) is None,
        !(read_answer(no_assets().insert(registered, bytes), has_fallback, path) is Embedded),
{
}

/// Fallback: a read of a path that is not registered asks the fallback for
/// that same path if there is one, and finds nothing if there is none.
pub proof fn lemma_fallback_is_asked(assets: Map<Seq<char>, Seq<u8>>, path: Seq<char>)
    requires
        !assets.contains_key(path),
    ensures
        read_answer(assets, true, path) == Answer::AskFallback(path),
        read_answer(assets, false, path) == Answer::NotFound(path),
{
}

/// Fallback: what is a folder, and what lies below it, is decided by the
/// registry alone. Two readers of the same registry agree on both, whatever
/// fallback either has.
pub proof fn lemma_directory_ignores_fallback<F, G>(
    one: EmbeddedAssetReader<F>,
    other: EmbeddedAssetReader<G>,
    path: Seq<char>,
)
    requires
        one.assets() == other.assets(),
    ensures
        one.spec_is_directory(path) == other.spec_is_directory(path),
        one.spec_directory(path) == other.spec_directory(path),
{
}

/// Folders: what lies below a folder is longer than the folder.
pub proof fn lemma_descendant_is_longer(dir: Seq<char>, key: Seq<char>)
    requires
        spec_is_descendant(dir, key),
    ensures
        dir.len() < key.len(),
        as_folder(dir).len() <= key.len(),
{
    if key.len() == dir.len() {
        assert(key.subrange(0, dir.len() as int) =~= key);
    }
}

/// Folders: nothing lies below itself, and what lies below a path that lies
/// below a folder lies below that folder.
pub proof fn lemma_descendants_are_ordered(outer: Seq<char>, inner: Seq<char>, key: Seq<char>)
    ensures
        !spec_is_descendant(key, key),
        spec_is_descendant(outer, inner) && spec_is_descendant(inner, key) ==> spec_is_descendant(
            outer,
            key,
        ),
        spec_is_descendant(outer, inner) ==> !spec_is_descendant(inner, outer),
{
    if spec_is_descendant(outer, inner) {
        lemma_descendant_is_longer(outer, inner);
        if spec_is_descendant(inner, outer) {
            lemma_descendant_is_longer(inner, outer);
        }
    }
    if spec_is_descendant(outer, inner) && spec_is_descendant(inner, key) {
        lemma_descendant_is_longer(inner, key);
        let folder = as_folder(outer);
        assert(key.subrange(0, folder.len() as int) =~= folder) by {
            assert forall|i: int| 0 <= i < folder.len() implies key[i] == folder[i] by {
                assert(inner.subrange(0, folder.len() as int)[i] == folder[i]);
                assert(key.subrange(0, as_folder(inner).len() as int)[i] == as_folder(inner)[i]);
            }
        }
    }
}

/// Folders: a folder is the same folder with or without a separator at its
/// end, unless a path is registered that is the folder and that separator
/// and nothing more.
pub proof fn lemma_trailing_separator(assets: Map<Seq<char>, Seq<u8>>, dir: Seq<char>)
    requires
        dir.len() == 0 || dir.last() != SEPARATOR,
        !assets.contains_key(dir.push(SEPARATOR)),
    ensures
        is_directory_in(assets, dir) == is_directory_in(assets, dir.push(SEPARATOR)),
        directory_listing(assets, dir) == directory_listing(assets, dir.push(SEPARATOR)),
{
    let with_separator = dir.push(SEPARATOR);
    assert(as_folder(with_separator) == as_folder(dir));
    assert forall|key: Seq<char>| #[trigger]
        assets.contains_key(key) implies spec_is_descendant(dir, key) == spec_is_descendant(
        with_separator,
        key,
    ) by {
        if spec_is_descendant(dir, key) {
            lemma_descendant_is_longer(dir, key);
        }
    }
    assert(directory_listing(assets, dir) =~= directory_listing(assets, with_separator));
}

/// Metadata: a read of the metadata of a path looks up the metadata path,
/// as a read of the metadata path does. Where it does not find it, the
/// fallback is asked for the path itself, not for the metadata path.
pub proof fn lemma_meta_read(
    assets: Map<Seq<char>, Seq<u8>>,
    has_fallback: bool,
    path: Seq<char>,
)
    ensures
        read_meta_answer(assets, has_fallback, path) is Embedded <==> assets.contains_key(
            meta_path(path),
        ),
        match read_answer(assets, has_fallback, meta_path(path)) {
            Answer::Embedded(bytes) => read_meta_answer(assets, has_fallback, path)
                == Answer::Embedded(bytes),
            Answer::AskFallback(_) => read_meta_answer(assets, has_fallback, path)
                == Answer::AskFallback(path),
            Answer::NotFound(missing) => read_meta_answer(assets, has_fallback, path)
                == Answer::NotFound(missing),
        },
{
}

/// Construction: two readers built from the same entries answer every
/// query alike.
pub proof fn lemma_same_entries_same_answers<F, G>(
    one: EmbeddedAssetReader<F>,
    other: EmbeddedAssetReader<G>,
    entries: Seq<(&'static str, &'static [u8])>,
    path: Seq<char>,
)
    requires
        one.assets() == assets_of(entries),
        other.assets() == assets_of(entries),
    ensures
        one.assets() == other.assets(),
        one.assets().contains_key(path) == other.assets().contains_key(path),
        lookup(one.assets(), path) == lookup(other.assets(), path),
        (one.fallback() is Some) == (other.fallback() is Some) ==> read_answer(
            one.assets(),
            one.fallback() is Some,
            path,
        ) == read_answer(other.assets(), other.fallback() is Some, path) && read_meta_answer(
            one.assets(),
            one.fallback() is Some,
            path,
        ) == read_meta_answer(other.assets(), other.fallback() is Some, path),
        one.spec_is_directory(path) == other.spec_is_directory(path),
        one.spec_directory(path) == other.spec_directory(path),
{
}

/// No two of `entries` have the same path.
pub open spec fn distinct_paths(entries: Seq<(&'static str, &'static [u8])>) -> bool {
    forall|i: int, j: int|
        0 <= i < j < entries.len() ==> #[trigger] entries[i].0@ != #[trigger] entries[j].0@
}

/// Each of `entries` is among `others`, path and bytes.
pub open spec fn all_among(
    entries: Seq<(&'static str, &'static [u8])>,
    others: Seq<(&'static str, &'static [u8])>,
) -> bool {
    forall|i: int|
        0 <= i < entries.len() ==> exists|j: int|
            0 <= j < others.len() && (#[trigger] entries[i]).0@ == (#[trigger] others[j]).0@
                && entries[i].1@ == others[j].1@
}

/// Construction: the order in which assets of different paths are
/// registered is irrelevant. The same entries in another order give the same
/// registry.
pub proof fn lemma_order_is_irrelevant(
    one: Seq<(&'static str, &'static [u8])>,
    other: Seq<(&'static str, &'static [u8])>,
)
    requires
        distinct_paths(one),
        distinct_paths(other),
        all_among(one, other),
        all_among(other, one),
    ensures
        assets_of(one) == assets_of(other),
{
    lemma_assets_of(one);
    lemma_assets_of(other);
    assert forall|path: Seq<char>| assets_of(one).contains_key(path) implies assets_of(
        other,
    ).contains_key(path) && assets_of(other)[path] == assets_of(one)[path] by {
        let i = choose|i: int| 0 <= i < one.len() && #[trigger] one[i].0@ == path;
        let j = choose|j: int|
            0 <= j < other.len() && (#[trigger] one[i]).0@ == (#[trigger] other[j]).0@
                && one[i].1@ == other[j].1@;
        assert(other[j].0@ == path);
        assert(assets_of(one)[one[i].0@] == one[i].1@);
        assert(assets_of(other)[other[j].0@] == other[j].1@);
    }
    assert forall|path: Seq<char>| assets_of(other).contains_key(path) implies assets_of(
        one,
    ).contains_key(path) by {
        let j = choose|j: int| 0 <= j < other.len() && #[trigger] other[j].0@ == path;
        let i = choose|i: int|
            0 <= i < one.len() && (#[trigger] other[j]).0@ == (#[trigger] one[i]).0@
                && other[j].1@ == one[i].1@;
        assert(one[i].0@ == path);
    }
    assert(assets_of(one) =~= assets_of(other));
}

} // verus!
