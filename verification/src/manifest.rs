//! What the manifest of embedded assets is built from: which folder is
//! embedded, and under which path each of its files is registered.
//!
//! The builder looks at the file system and asks here what follows from what
//! it found.

use crate::path::{as_folder, spec_is_descendant, SEPARATOR};
use vstd::prelude::*;
use vstd::std_specs::iter::IteratorSpec;
use vstd::string::{StrSliceExecFns, StringExecFns};

verus! {

/// `String::push`: appends `c` to the end of `text`. Not proved: this is
/// what the standard library documents of it.
#[verifier::external_body]
fn push_char(text: &mut String, c: char)
    ensures
        final(text)@ == old(text)@.push(c),
{
    text.push(c);
}

/// `c`, or the separator of asset paths where `c` is the separator of the
/// platform that builds.
pub open spec fn normalized_char(c: char, separator: char) -> char {
    if c == separator {
        SEPARATOR
    } else {
        c
    }
}

/// `path` with every separator of the platform that builds rewritten to the
/// separator of asset paths.
pub open spec fn normalized(path: Seq<char>, separator: char) -> Seq<char> {
    path.map_values(|c: char| normalized_char(c, separator))
}

/// What is left of `path` below the folder `dir`, if it lies below it.
pub open spec fn relative_to(dir: Seq<char>, path: Seq<char>) -> Option<Seq<char>> {
    if spec_is_descendant(dir, path) {
        Some(path.skip(as_folder(dir).len() as int))
    } else {
        None
    }
}

/// The path under which the file `file` found below the folder `root` is
/// registered: what is left of it below `root`, with the separator of asset
/// paths in place of the separator of the platform that builds.
pub open spec fn spec_asset_key(root: Seq<char>, file: Seq<char>, separator: char) -> Option<
    Seq<char>,
> {
    relative_to(normalized(root, separator), normalized(file, separator))
}

/// A path below a folder is the folder, a separator unless the folder ends
/// with one, and what is left of the path.
pub proof fn lemma_relative_to(dir: Seq<char>, path: Seq<char>)
    requires
        relative_to(dir, path) is Some,
    ensures
        as_folder(dir) + relative_to(dir, path)->0 == path,
{
}

/// Normalizing keeps the length, leaves no separator of the platform but
/// the separator of asset paths, and changes nothing when done again.
pub proof fn lemma_normalized(path: Seq<char>, separator: char)
    ensures
        normalized(path, separator).len() == path.len(),
        separator != SEPARATOR ==> !normalized(path, separator).contains(separator),
        normalized(normalized(path, separator), separator) == normalized(path, separator),
        separator == SEPARATOR ==> normalized(path, separator) == path,
{
    let once = normalized(path, separator);
    if separator != SEPARATOR && once.contains(separator) {
        let i = choose|i: int| 0 <= i < once.len() && once[i] == separator;
        assert(once[i] == normalized_char(path[i], separator));
    }
}

/// `path` with every `separator` rewritten to `/`.
pub fn normalize_separators(path: &str, separator: char) -> (key: String)
    ensures
        key@ == normalized(path@, separator),
{
    let mut key = String::new();
    let mut chars = path.chars();
    let ghost mut k: int = 0;
    loop
        invariant
            0 <= k <= path@.len(),
            chars.remaining() == path@.skip(k),
            key@ == normalized(path@.take(k), separator),
        decreases path@.len() - k,
    {
        match chars.next() {
            None => {
                return key;
            },
            Some(c) => {
                if c == separator {
                    push_char(&mut key, SEPARATOR);
                } else {
                    push_char(&mut key, c);
                }
                proof {
                    assert(normalized(path@.take(k + 1), separator) =~= normalized(
                        path@.take(k),
                        separator,
                    ).push(normalized_char(c, separator)));
                    k = k + 1;
                }
            },
        }
    }
}

/// What is left of `path` below the folder `dir`, or `None` when `path` does
/// not lie below `dir`.
pub fn relative_path(dir: &str, path: &str) -> (rest: Option<String>)
    ensures
        match rest {
            Some(rest) => relative_to(dir@, path@) == Some(rest@),
            None => relative_to(dir@, path@) is None,
        },
{
    let mut dir_chars = dir.chars();
    let mut path_chars = path.chars();
    let mut ends_with_separator = false;
    let mut rest = String::new();
    let ghost mut k: int = 0;
    loop
        invariant_except_break
            0 <= k <= dir@.len(),
            k <= path@.len(),
            dir_chars.remaining() == dir@.skip(k),
            path_chars.remaining() == path@.skip(k),
            dir@.take(k) == path@.take(k),
            ends_with_separator == (k > 0 && dir@[k - 1] == SEPARATOR),
            rest@.len() == 0,
        ensures
            spec_is_descendant(dir@, path@),
            as_folder(dir@).len() <= k <= path@.len(),
            path_chars.remaining() == path@.skip(k),
            rest@ == path@.subrange(as_folder(dir@).len() as int, k),
        decreases dir@.len() - k,
    {
        match dir_chars.next() {
            None => {
                match path_chars.next() {
                    None => {
                        assert(path@ =~= path@.take(k));
                        return None;
                    },
                    Some(c) => {
                        proof {
                            if !ends_with_separator && as_folder(dir@).is_prefix_of(path@) {
                                assert(as_folder(dir@)[k] == path@.subrange(0, k + 1)[k]);
                            }
                        }
                        if ends_with_separator {
                            push_char(&mut rest, c);
                        } else if c != SEPARATOR {
                            return None;
                        }
                        proof {
                            k = k + 1;
                        }
                        break ;
                    },
                }
            },
            Some(d) => {
                match path_chars.next() {
                    None => {
                        return None;
                    },
                    Some(c) => {
                        if d != c {
                            assert(!as_folder(dir@).is_prefix_of(path@)) by {
                                if as_folder(dir@).is_prefix_of(path@) {
                                    assert(as_folder(dir@)[k] == path@.subrange(
                                        0,
                                        as_folder(dir@).len() as int,
                                    )[k]);
                                }
                            }
                            return None;
                        }
                        ends_with_separator = d == SEPARATOR;
                        proof {
                            k = k + 1;
                        }
                    },
                }
            },
        }
    }
    let ghost start = as_folder(dir@).len() as int;
    loop
        invariant
            spec_is_descendant(dir@, path@),
            start == as_folder(dir@).len(),
            start <= k <= path@.len(),
            path_chars.remaining() == path@.skip(k),
            rest@ == path@.subrange(start, k),
        decreases path@.len() - k,
    {
        match path_chars.next() {
            None => {
                return Some(rest);
            },
            Some(c) => {
                push_char(&mut rest, c);
                proof {
                    k = k + 1;
                }
            },
        }
    }
}

/// The path under which the file `file` found below the folder `root` is
/// registered, or `None` when `file` does not lie below `root`. `separator`
/// is the separator of the platform that builds.
pub fn asset_key(root: &str, file: &str, separator: char) -> (key: Option<String>)
    ensures
        match key {
            Some(key) => spec_asset_key(root@, file@, separator) == Some(key@),
            None => spec_asset_key(root@, file@, separator) is None,
        },
{
    let root = normalize_separators(root, separator);
    let file = normalize_separators(file, separator);
    relative_path(root.as_str(), file.as_str())
}

/// What is embedded.
#[derive(Debug, Clone, PartialEq, Eq)]
pub enum AssetRoot {
    /// Every file below this folder.
    Folder(String),
    /// Nothing: the build is for documentation alone and has no assets.
    Nothing,
}

/// No folder of assets was found, and the build is not for documentation
/// alone: the build must stop rather than embed nothing.
#[derive(Debug, Clone, Copy, PartialEq, Eq, Structural)]
pub struct NoAssetRootFound;

impl NoAssetRootFound {
    /// The error in words.
    pub fn message(&self) -> (text: String)
        ensures
            text@ == "No asset folder found"@,
    {
        "No asset folder found".to_owned()
    }
}

/// `name` inside the folder `base`: `base`, a separator unless `base` is
/// empty or ends with one, and `name`.
pub open spec fn joined(base: Seq<char>, name: Seq<char>, separator: char) -> Seq<char> {
    if base.len() == 0 || base.last() == separator {
        base + name
    } else {
        base.push(separator) + name
    }
}

/// `name` inside the folder `base`.
pub fn join(base: &str, name: &str, separator: char) -> (path: String)
    ensures
        path@ == joined(base@, name@, separator),
{
    let mut path = String::new();
    let mut chars = base.chars();
    let mut last: Option<char> = None;
    let ghost mut k: int = 0;
    loop
        invariant_except_break
            0 <= k <= base@.len(),
            chars.remaining() == base@.skip(k),
            path@ == base@.take(k),
            last == if k == 0 {
                None
            } else {
                Some(base@[k - 1])
            },
        ensures
            path@ == base@,
            last == if base@.len() == 0 {
                None
            } else {
                Some(base@.last())
            },
        decreases base@.len() - k,
    {
        match chars.next() {
            None => {
                break ;
            },
            Some(c) => {
                push_char(&mut path, c);
                last = Some(c);
                proof {
                    k = k + 1;
                }
            },
        }
    }
    match last {
        None => {},
        Some(c) => {
            if c != separator {
                push_char(&mut path, separator);
            }
        },
    }
    path.append(name);
    path
}

/// The name of the folder that the build tool writes to.
pub open spec fn target_name() -> Seq<char> {
    "target"@
}

/// A component of `path` starts at `at` and is the name of the folder that
/// the build tool writes to.
pub open spec fn is_target_at(path: Seq<char>, at: int, separator: char) -> bool {
    let end = at + target_name().len();
    &&& 0 <= at
    &&& end <= path.len()
    &&& path.subrange(at, end) == target_name()
    &&& forall|j: int| at <= j < end ==> path[j] != separator
    &&& (at == 0 || path[at - 1] == separator)
    &&& (end == path.len() || path[end] == separator)
}

/// The folder that holds the component of `path` that starts at `at`: what
/// stands before the separator in front of the component, or that separator
/// alone where nothing stands before it.
pub open spec fn parent_of(path: Seq<char>, at: int) -> Seq<char> {
    if at <= 1 {
        path.take(at)
    } else {
        path.take(at - 1)
    }
}

/// `at` is where the innermost folder of `path` starts that is named like the
/// folder that the build tool writes to.
pub open spec fn is_innermost_target(path: Seq<char>, at: int, separator: char) -> bool {
    is_target_at(path, at, separator) && forall|other: int|
        is_target_at(path, other, separator) ==> other <= at
}

/// The folder of the project that is built, seen from `out_dir`, a folder
/// that the build tool writes to: the folder that holds the innermost folder
/// named `target` on the way to `out_dir`. `None` when no folder on the way
/// has that name.
pub fn project_folder(out_dir: &str, separator: char) -> (project: Option<String>)
    ensures
        match project {
            Some(folder) => exists|at: int| #[trigger]
                is_innermost_target(out_dir@, at, separator) && folder@ == parent_of(
                    out_dir@,
                    at,
                ),
            None => forall|at: int| !is_target_at(out_dir@, at, separator),
        },
{
    let name = "target";
    proof {
        reveal_strlit("target");
    }
    let name_len: usize = 6;
    let len = out_dir.unicode_len();
    let mut chars = out_dir.chars();
    let mut k: usize = 0;
    let mut start: usize = 0;
    let mut matched: usize = 0;
    let mut matches = true;
    let mut best: Option<usize> = None;
    assert(out_dir@.subrange(0, 0) =~= name@.take(0));
    loop
        invariant_except_break
            name@ == target_name(),
            name@.len() == name_len == 6,
            len == out_dir@.len(),
            0 <= start <= k <= len,
            chars.remaining() == out_dir@.skip(k as int),
            start == 0 || out_dir@[start - 1] == separator,
            forall|j: int| start <= j < k ==> out_dir@[j] != separator,
            matches ==> matched == k - start && matched <= name_len,
            matches <==> k - start <= name_len && out_dir@.subrange(start as int, k as int)
                == name@.take(k - start),
            match best {
                Some(at) => at < start && is_target_at(out_dir@, at as int, separator),
                None => true,
            },
            forall|other: int|
                is_target_at(out_dir@, other, separator) && other < start ==> best is Some
                    && other <= best->0,
        ensures
            name@ == target_name(),
            len == out_dir@.len(),
            match best {
                Some(at) => at <= len && is_innermost_target(out_dir@, at as int, separator),
                None => forall|at: int| !is_target_at(out_dir@, at, separator),
            },
        decreases len - k,
    {
        let ghost path = out_dir@;
        match chars.next() {
            None => {
                proof {
                    lemma_component_is_target(path, start as int, k as int, separator);
                    assert forall|other: int|
                        is_target_at(path, other, separator) && other >= start implies other
                        == start by {
                        if other > start {
                            assert(path[other - 1] == separator);
                        }
                    }
                }
                if matches && matched == name_len {
                    best = Some(start);
                }
                break ;
            },
            Some(c) => {
                if c == separator {
                    proof {
                        lemma_component_is_target(path, start as int, k as int, separator);
                        assert forall|other: int|
                            is_target_at(path, other, separator) && start <= other < k
                                + 1 implies other == start by {
                            if other > start {
                                assert(path[other - 1] == separator);
                            }
                        }
                    }
                    if matches && matched == name_len {
                        best = Some(start);
                    }
                    start = k + 1;
                    matched = 0;
                    matches = true;
                    assert(path.subrange(start as int, k + 1) =~= name@.take(0));
                } else {
                    if matches && matched < name_len && c == name.get_char(matched) {
                        matched = matched + 1;
                        assert(path.subrange(start as int, k + 1) =~= name@.take(k + 1 - start));
                    } else {
                        matches = false;
                        proof {
                            if k + 1 - start <= name_len && path.subrange(start as int, k + 1)
                                == name@.take(k + 1 - start) {
                                assert(path.subrange(start as int, k as int) =~= name@.take(
                                    k - start,
                                )) by {
                                    assert forall|j: int| 0 <= j < k - start implies path.subrange(
                                        start as int,
                                        k as int,
                                    )[j] == name@.take(k - start)[j] by {
                                        assert(path.subrange(start as int, k + 1)[j] == name@.take(
                                            k + 1 - start,
                                        )[j]);
                                    }
                                }
                                assert(path.subrange(start as int, k + 1)[k - start] == name@.take(
                                    k + 1 - start,
                                )[k - start]);
                            }
                        }
                    }
                }
                k = k + 1;
            },
        }
    }
    match best {
        None => None,
        Some(at) => {
            let end: usize = if at <= 1 {
                at
            } else {
                at - 1
            };
            let folder = out_dir.substring_char(0, end).to_owned();
            Some(folder)
        },
    }
}

/// A component that ends at a separator or at the end of the path is the
/// name of the folder that the build tool writes to exactly when it is
/// as long and holds the same characters.
proof fn lemma_component_is_target(path: Seq<char>, start: int, end: int, separator: char)
    requires
        0 <= start <= end <= path.len(),
        start == 0 || path[start - 1] == separator,
        end == path.len() || path[end] == separator,
        forall|j: int| start <= j < end ==> path[j] != separator,
    ensures
        is_target_at(path, start, separator) <==> end - start == target_name().len()
            && path.subrange(start, end) == target_name().take(end - start),
{
    let name = target_name();
    if is_target_at(path, start, separator) {
        // The component ends where the name ends: at the first separator
        // behind `start`, or at the end of the path.
        if start + name.len() < end {
            assert(path[start + name.len()] == separator);
        }
        if start + name.len() > end {
            assert(path[end] == separator);
        }
    }
    if end - start == name.len() {
        assert(name.take(end - start) =~= name);
    }
}

/// The folder that a project has if it has staged any assets.
pub open spec fn spec_staged_folder(project: Seq<char>, separator: char) -> Seq<char> {
    joined(project, "imported_assets"@, separator)
}

/// The folder of staged assets of a project, inside the folder of the
/// project.
pub open spec fn staged_root(project: Seq<char>, separator: char) -> Seq<char> {
    joined(spec_staged_folder(project, separator), "Default"@, separator)
}

/// The folder of raw assets of a project, inside the folder of the project.
pub open spec fn raw_root(project: Seq<char>, separator: char) -> Seq<char> {
    joined(project, "assets"@, separator)
}

/// The folder that the project in the folder `project` has if it has staged
/// any assets.
pub fn staged_folder(project: &str, separator: char) -> (folder: String)
    ensures
        folder@ == spec_staged_folder(project@, separator),
{
    join(project, "imported_assets", separator)
}

/// The folder in which the convention looks for the assets of the project in
/// the folder `project`: the folder of staged assets if the project has
/// staged any, else the folder of raw assets.
pub fn conventional_root(project: &str, has_staged: bool, separator: char) -> (folder: String)
    ensures
        folder@ == if has_staged {
            staged_root(project@, separator)
        } else {
            raw_root(project@, separator)
        },
{
    if has_staged {
        let staged = staged_folder(project, separator);
        join(staged.as_str(), "Default", separator)
    } else {
        join(project, "assets", separator)
    }
}

/// What is embedded: the folder `explicit`, named by the configuration and
/// found; without it the folder `conventional`, named by the convention and
/// found; without either nothing, if the build is for documentation alone.
///
/// # Errors
///
/// This will return an error if no folder was found and the build is not for
/// documentation alone.
pub fn resolve_root(
    explicit: Option<String>,
    conventional: Option<String>,
    documentation: bool,
) -> (root: Result<AssetRoot, NoAssetRootFound>)
    ensures
        match (explicit, conventional) {
            (Some(wanted), _) => root matches Ok(AssetRoot::Folder(folder)) && folder@ == wanted@,
            (None, Some(found)) => root matches Ok(AssetRoot::Folder(folder)) && folder@
                == found@,
            (None, None) => if documentation {
                root == Ok::<_, NoAssetRootFound>(AssetRoot::Nothing)
            } else {
                root is Err
            },
        },
{
    match explicit {
        Some(wanted) => Ok(AssetRoot::Folder(wanted)),
        None => match conventional {
            Some(found) => Ok(AssetRoot::Folder(found)),
            None => if documentation {
                Ok(AssetRoot::Nothing)
            } else {
                Err(NoAssetRootFound)
            },
        },
    }
}

} // verus!
