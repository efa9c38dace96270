//! The reader of embedded assets, and the streams it hands out.

use crate::asset_table::{
    key_views, no_assets, table_contains_key, table_contents, table_get, table_insert, table_keys,
    table_new, AssetTable,
};
use crate::path::{
    is_descendant, lemma_meta_path, meta_path, meta_suffix, spec_has_extension, spec_is_descendant,
};
use crate::registry::{
    assets_of, directory_listing, is_directory_in, lookup, read_answer, read_meta_answer, Answer,
};
use vstd::prelude::*;
use vstd::string::StringExecFns;

verus! {

/// Why the reader could not answer.
#[derive(Debug, Clone, PartialEq, Eq)]
pub enum AssetReaderError {
    /// Nothing is known under this path.
    NotFound(String),
}

/// Why a stream of embedded bytes refused an operation.
#[derive(Debug, Clone, Copy, PartialEq, Eq, Structural)]
pub enum EmbeddedDataReaderError {
    /// An embedded asset is read from front to back and cannot be repositioned.
    SeekNotSupported,
}

impl EmbeddedDataReaderError {
    /// The error in words.
    pub fn message(&self) -> (text: String)
        ensures
            text@ == "Seek is not supported when embeded"@,
    {
        "Seek is not supported when embeded".to_owned()
    }
}

/// Where a seek is measured from, and how far.
#[derive(Debug, Clone, Copy, PartialEq, Eq, Structural)]
pub enum SeekFrom {
    /// So many bytes behind the start.
    Start(u64),
    /// So many bytes behind the end, or before it if negative.
    End(i64),
    /// So many bytes behind the cursor, or before it if negative.
    Current(i64),
}

/// A wrapper around the raw bytes of an asset, read from front to back.
///
/// The field holds what has not been read yet: to get the raw data, use
/// `reader.0`.
#[derive(Default, Debug, Clone, Copy)]
pub struct DataReader(pub &'static [u8]);

impl DataReader {
    /// Copies as many of the unread bytes as fit to the front of `buf`, and
    /// moves past them. Returns how many were copied.
    pub fn read(&mut self, buf: &mut [u8]) -> (count: usize)
        ensures
            count == if old(self).0@.len() <= old(buf)@.len() {
                old(self).0@.len()
            } else {
                old(buf)@.len()
            },
            final(buf)@ == old(self).0@.take(count as int) + old(buf)@.skip(count as int),
            final(self).0@ == old(self).0@.skip(count as int),
    {
        let source: &'static [u8] = self.0;
        let count: usize = if source.len() <= buf.len() {
            source.len()
        } else {
            buf.len()
        };
        let mut i: usize = 0;
        while i < count
            invariant
                i <= count,
                count <= source@.len(),
                count <= buf@.len(),
                buf@.len() == old(buf)@.len(),
                forall|j: int| 0 <= j < i ==> buf@[j] == source@[j],
                forall|j: int| i <= j < buf@.len() ==> buf@[j] == old(buf)@[j],
            decreases count - i,
        {
            buf[i] = source[i];
            i += 1;
        }
        let (_, unread) = source.split_at(count);
        self.0 = unread;
        count
    }

    /// Appends every unread byte to `buf` and leaves nothing unread. Returns
    /// how many were appended.
    pub fn read_to_end(&mut self, buf: &mut Vec<u8>) -> (count: usize)
        ensures
            count == old(self).0@.len(),
            final(buf)@ == old(buf)@ + old(self).0@,
            final(self).0@.len() == 0,
    {
        let source: &'static [u8] = self.0;
        let count: usize = source.len();
        let mut i: usize = 0;
        while i < count
            invariant
                i <= count,
                count == source@.len(),
                buf@ == old(buf)@ + source@.take(i as int),
            decreases count - i,
        {
            buf.push(source[i]);
            i += 1;
        }
        let (_, unread) = source.split_at(count);
        self.0 = unread;
        count
    }

    /// Refuses: embedded bytes cannot be repositioned, wherever to.
    pub fn seek(&mut self, pos: SeekFrom) -> (refused: Result<u64, EmbeddedDataReaderError>)
        ensures
            refused == Err::<u64, _>(EmbeddedDataReaderError::SeekNotSupported),
            final(self).0@ == old(self).0@,
    {
        Err(EmbeddedDataReaderError::SeekNotSupported)
    }

    /// Refuses: embedded bytes cannot be skipped, however few.
    pub fn seek_forward(&mut self, offset: u64) -> (refused: Result<
        u64,
        EmbeddedDataReaderError,
    >)
        ensures
            refused == Err::<u64, _>(EmbeddedDataReaderError::SeekNotSupported),
            final(self).0@ == old(self).0@,
    {
        Err(EmbeddedDataReaderError::SeekNotSupported)
    }
}

/// The paths found below a folder, handed out one at a time.
///
/// A path that was handed out is gone: to list the folder again, ask the
/// reader again.
#[derive(Debug)]
pub struct DirReader(pub Vec<String>);

impl DirReader {
    /// The paths that have not been handed out yet.
    pub open spec fn paths(&self) -> Seq<Seq<char>> {
        self.0@.map_values(|path: String| path@)
    }

    /// Hands out one of the remaining paths, or `None` when none is left.
    pub fn next(&mut self) -> (path: Option<String>)
        ensures
            old(self).paths().len() == 0 ==> path is None && final(self).paths() == old(
                self,
            ).paths(),
            old(self).paths().len() > 0 ==> path is Some && path->0@ == old(self).paths().last()
                && final(self).paths() == old(self).paths().drop_last(),
    {
        let path = self.0.pop();
        path
    }
}

/// Stands where a reader has no fallback.
#[derive(Debug, Clone, Copy, Default)]
pub struct NoFallback;

/// Where the bytes of a path are to be read from.
#[derive(Debug)]
pub enum ReadSource<'a, 'p, F> {
    /// From the embedded asset itself.
    Embedded(DataReader),
    /// From the fallback of the reader, which is to be asked for `path`.
    Fallback { reader: &'a F, path: &'p str },
}

/// What `source` comes to.
pub open spec fn answer_of<F>(source: Result<ReadSource<'_, '_, F>, AssetReaderError>) -> Answer {
    match source {
        Ok(ReadSource::Embedded(reader)) => Answer::Embedded(reader.0@),
        Ok(ReadSource::Fallback { reader, path }) => Answer::AskFallback(path@),
        Err(AssetReaderError::NotFound(missing)) => Answer::NotFound(missing@),
    }
}

/// The path of the metadata sidecar of `path`: `image.png` has its metadata
/// in `image.png.meta`.
pub fn get_meta_path(path: &str) -> (meta: String)
    requires
        spec_has_extension(path@),
    ensures
        meta@ == meta_path(path@),
        meta@ == path@ + meta_suffix(),
{
    let mut meta = path.to_owned();
    meta.append(".meta");
    proof {
        reveal_strlit(".meta");
        lemma_meta_path(path@);
    }
    meta
}

/// Struct which can be used to retrieve embedded assets directly, by path.
///
/// It answers from its registry alone whether a path exists and what lies
/// below a folder. For the bytes of a path that it does not hold it refers to
/// its fallback, a reader `F` of anything else, if it was given one.
#[derive(Debug)]
pub struct EmbeddedAssetReader<F = NoFallback> {
    loaded: AssetTable,
    fallback: Option<F>,
}

impl Default for EmbeddedAssetReader<NoFallback> {
    fn default() -> (reader: Self)
        ensures
            reader.assets() == no_assets(),
            reader.fallback() is None,
    {
        Self::new()
    }
}

impl EmbeddedAssetReader<NoFallback> {
    /// Create an empty [`EmbeddedAssetReader`].
    #[must_use]
    pub fn new() -> (reader: Self)
        ensures
            reader.assets() == no_assets(),
            reader.fallback() is None,
    {
        Self { loaded: table_new(), fallback: None }
    }

    /// Create an [`EmbeddedAssetReader`] loaded with all of `entries`, the
    /// assets found when the program was built.
    #[must_use]
    pub fn preloaded(entries: &[(&'static str, &'static [u8])]) -> (reader: Self)
        ensures
            reader.assets() == assets_of(entries@),
            reader.fallback() is None,
    {
        Self::with_entries(entries, None)
    }
}

impl<F> EmbeddedAssetReader<F> {
    /// The registry of the reader.
    pub closed spec fn assets(&self) -> Map<Seq<char>, Seq<u8>> {
        table_contents(self.loaded)
    }

    /// The fallback of the reader.
    pub closed spec fn fallback(&self) -> Option<F> {
        self.fallback
    }

    /// Whether the reader takes `path` for a folder.
    pub open spec fn spec_is_directory(&self, path: Seq<char>) -> bool {
        is_directory_in(self.assets(), path)
    }

    /// What the reader lists for the folder `path`.
    pub open spec fn spec_directory(&self, path: Seq<char>) -> Set<Seq<char>> {
        directory_listing(self.assets(), path)
    }

    /// Create an [`EmbeddedAssetReader`] loaded with all of `entries`,
    /// registered one after the other, that refers to `fallback` for what it
    /// does not hold, if it is given one.
    #[must_use]
    pub fn with_entries(
        entries: &[(&'static str, &'static [u8])],
        fallback: Option<F>,
    ) -> (reader: Self)
        ensures
            reader.assets() == assets_of(entries@),
            reader.fallback() == fallback,
    {
        let mut reader = Self { loaded: table_new(), fallback };
        let mut i: usize = 0;
        while i < entries.len()
            invariant
                i <= entries@.len(),
                reader.fallback() == fallback,
                reader.assets() == assets_of(entries@.take(i as int)),
            decreases entries@.len() - i,
        {
            let (path, data) = entries[i];
            reader.add_asset(path, data);
            assert(entries@.take(i + 1).drop_last() =~= entries@.take(i as int));
            i += 1;
        }
        assert(entries@.take(i as int) =~= entries@);
        reader
    }

    /// Create an [`EmbeddedAssetReader`] loaded with all of `entries`, the
    /// assets found when the program was built, that refers to the reader
    /// made by `default` for what it does not hold.
    #[must_use]
    pub fn preloaded_with_default<D: FnOnce() -> F>(
        entries: &[(&'static str, &'static [u8])],
        default: D,
    ) -> (reader: Self)
        requires
            default.requires(()),
        ensures
            reader.assets() == assets_of(entries@),
            reader.fallback() is Some,
            default.ensures((), reader.fallback()->0),
    {
        Self::with_entries(entries, Some(default()))
    }

    /// Add an asset to this [`EmbeddedAssetReader`]. It takes the place of
    /// an asset that was added under the same path before.
    pub fn add_asset(&mut self, path: &'static str, data: &'static [u8])
        ensures
            final(self).assets() == old(self).assets().insert(path@, data@),
            final(self).fallback() == old(self).fallback(),
    {
        table_insert(&mut self.loaded, path, data);
    }

    /// Get the data from the asset matching the path provided.
    ///
    /// # Errors
    ///
    /// This will returns an error if the path is not known.
    pub fn load_path_sync(&self, path: &str) -> (loaded: Result<DataReader, AssetReaderError>)
        ensures
            match loaded {
                Ok(reader) => lookup(self.assets(), path@) == Some(reader.0@),
                Err(AssetReaderError::NotFound(missing)) => lookup(self.assets(), path@) is None
                    && missing@ == path@,
            },
    {
        match table_get(&self.loaded, path) {
            Some(data) => Ok(DataReader(data)),
            None => Err(AssetReaderError::NotFound(path.to_owned())),
        }
    }

    /// Whether an asset is registered under exactly `path`.
    pub fn has_file_sync(&self, path: &str) -> (found: bool)
        ensures
            found == self.assets().contains_key(path@),
    {
        table_contains_key(&self.loaded, path)
    }

    /// Whether `path` is a folder: whether some asset lies below it. The
    /// fallback is not asked.
    pub fn is_directory_sync(&self, path: &str) -> (found: bool)
        ensures
            found == self.spec_is_directory(path@),
    {
        let keys = table_keys(&self.loaded);
        let mut i: usize = 0;
        while i < keys.len()
            invariant
                i <= keys@.len(),
                key_views(keys@).to_set() == self.assets().dom(),
                forall|j: int| 0 <= j < i ==> !spec_is_descendant(path@, #[trigger] keys@[j]@),
            decreases keys@.len() - i,
        {
            if is_descendant(path, keys[i]) {
                proof {
                    lemma_key_is_registered(keys@, i as int);
                }
                return true;
            }
            i += 1;
        }
        proof {
            assert forall|key: Seq<char>| #[trigger]
                self.assets().contains_key(key) implies !spec_is_descendant(path@, key) by {
                let j = lemma_registered_is_key(keys@, key);
                assert(!spec_is_descendant(path@, keys@[j]@));
            }
        }
        false
    }

    /// The assets below the folder `path`, directly or not, in no particular
    /// order. The fallback is not asked.
    ///
    /// # Errors
    ///
    /// This will return an error if `path` is not a folder.
    pub fn read_directory_sync(&self, path: &str) -> (listed: Result<DirReader, AssetReaderError>)
        ensures
            match listed {
                Ok(listing) => self.spec_is_directory(path@) && listing.paths().no_duplicates()
                    && listing.paths().to_set() == self.spec_directory(path@),
                Err(AssetReaderError::NotFound(missing)) => !self.spec_is_directory(path@)
                    && missing@ == path@,
            },
    {
        if !self.is_directory_sync(path) {
            return Err(AssetReaderError::NotFound(path.to_owned()));
        }
        let keys = table_keys(&self.loaded);
        let mut paths: Vec<String> = Vec::new();
        let ghost mut origin: Seq<int> = Seq::empty();
        let mut i: usize = 0;
        while i < keys.len()
            invariant
                i <= keys@.len(),
                origin.len() == paths@.len(),
                forall|a: int|
                    0 <= a < origin.len() ==> 0 <= #[trigger] origin[a] < i && paths@[a]@
                        == keys@[origin[a]]@ && spec_is_descendant(path@, paths@[a]@),
                forall|a: int, b: int| 0 <= a < b < origin.len() ==> origin[a] < origin[b],
                forall|j: int|
                    0 <= j < i && spec_is_descendant(path@, #[trigger] keys@[j]@) ==> exists|
                        a: int,
                    |
                        0 <= a < origin.len() && #[trigger] origin[a] == j,
            decreases keys@.len() - i,
        {
            if is_descendant(path, keys[i]) {
                paths.push(keys[i].to_owned());
                proof {
                    let ghost earlier = origin;
                    origin = origin.push(i as int);
                    assert forall|j: int|
                        0 <= j < i + 1 && spec_is_descendant(
                            path@,
                            #[trigger] keys@[j]@,
                        ) implies exists|a: int|
                        0 <= a < origin.len() && #[trigger] origin[a] == j by {
                        if j < i {
                            let a = choose|a: int|
                                0 <= a < earlier.len() && #[trigger] earlier[a] == j;
                            assert(origin[a] == j);
                        } else {
                            assert(origin[origin.len() - 1] == j);
                        }
                    }
                }
            }
            i += 1;
        }
        let listing = DirReader(paths);
        proof {
            let listed = listing.paths();
            assert forall|a: int, b: int| 0 <= a < listed.len() && 0 <= b < listed.len() && a
                != b implies listed[a] != listed[b] by {
                assert(key_views(keys@)[origin[a]] != key_views(keys@)[origin[b]]);
            }
            assert forall|key: Seq<char>|
                listed.to_set().contains(key) <==> self.spec_directory(path@).contains(key) by {
                if listed.to_set().contains(key) {
                    let a = choose|a: int| 0 <= a < listed.len() && listed[a] == key;
                    lemma_key_is_registered(keys@, origin[a]);
                }
                if self.spec_directory(path@).contains(key) {
                    let j = lemma_registered_is_key(keys@, key);
                    let a = choose|a: int| 0 <= a < origin.len() && #[trigger] origin[a] == j;
                    assert(listed[a] == key);
                }
            }
        }
        Ok(listing)
    }

    /// Where the bytes of `path` are to be read from: the embedded asset of
    /// exactly this path if there is one, else the fallback, asked for the
    /// same path.
    ///
    /// # Errors
    ///
    /// This will return an error if the path is not known and there is no
    /// fallback.
    pub fn read<'a, 'p>(&'a self, path: &'p str) -> (source: Result<
        ReadSource<'a, 'p, F>,
        AssetReaderError,
    >)
        ensures
            answer_of(source) == read_answer(self.assets(), self.fallback() is Some, path@),
            source matches Ok(ReadSource::Fallback { reader, .. }) ==> self.fallback() == Some(
                *reader,
            ),
    {
        if self.has_file_sync(path) {
            match self.load_path_sync(path) {
                Ok(reader) => Ok(ReadSource::Embedded(reader)),
                Err(error) => Err(error),
            }
        } else {
            match &self.fallback {
                Some(fallback) => Ok(ReadSource::Fallback { reader: fallback, path }),
                None => Err(AssetReaderError::NotFound(path.to_owned())),
            }
        }
    }

    /// Where the metadata of `path` is to be read from: the embedded asset
    /// under the metadata path of `path` if there is one, else the fallback,
    /// asked for the metadata of `path` itself.
    ///
    /// # Errors
    ///
    /// This will return an error if the metadata path is not known and there
    /// is no fallback.
    pub fn read_meta<'a, 'p>(&'a self, path: &'p str) -> (source: Result<
        ReadSource<'a, 'p, F>,
        AssetReaderError,
    >)
        requires
            spec_has_extension(path@),
        ensures
            answer_of(source) == read_meta_answer(self.assets(), self.fallback() is Some, path@),
            source matches Ok(ReadSource::Fallback { reader, .. }) ==> self.fallback() == Some(
                *reader,
            ),
    {
        let meta = get_meta_path(path);
        if self.has_file_sync(meta.as_str()) {
            match self.load_path_sync(meta.as_str()) {
                Ok(reader) => Ok(ReadSource::Embedded(reader)),
                Err(error) => Err(error),
            }
        } else {
            match &self.fallback {
                Some(fallback) => Ok(ReadSource::Fallback { reader: fallback, path }),
                None => Err(AssetReaderError::NotFound(meta)),
            }
        }
    }

    /// The assets below the folder `path`, as a stream. The fallback is not
    /// asked.
    ///
    /// # Errors
    ///
    /// This will return an error if `path` is not a folder.
    pub fn read_directory(&self, path: &str) -> (listed: Result<DirReader, AssetReaderError>)
        ensures
            match listed {
                Ok(listing) => self.spec_is_directory(path@) && listing.paths().no_duplicates()
                    && listing.paths().to_set() == self.spec_directory(path@),
                Err(AssetReaderError::NotFound(missing)) => !self.spec_is_directory(path@)
                    && missing@ == path@,
            },
    {
        self.read_directory_sync(path)
    }

    /// Whether `path` is a folder. The fallback is not asked, and the answer
    /// is never an error.
    pub fn is_directory(&self, path: &str) -> (found: Result<bool, AssetReaderError>)
        ensures
            found matches Ok(answer) && answer == self.spec_is_directory(path@),
    {
        Ok(self.is_directory_sync(path))
    }
}

/// Each of the keys of a table is a path of the table.
proof fn lemma_key_is_registered(keys: Seq<&'static str>, i: int)
    requires
        0 <= i < keys.len(),
    ensures
        key_views(keys).to_set().contains(keys[i]@),
{
    assert(key_views(keys)[i] == keys[i]@);
}

/// Each path of a table is among its keys.
proof fn lemma_registered_is_key(keys: Seq<&'static str>, path: Seq<char>) -> (i: int)
    requires
        key_views(keys).to_set().contains(path),
    ensures
        0 <= i < keys.len(),
        keys[i]@ == path,
{
    let i = choose|i: int| 0 <= i < key_views(keys).len() && key_views(keys)[i] == path;
    i
}

} // verus!
