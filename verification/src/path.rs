//! Asset paths.
//!
//! A path is relative, uses `/` between its components on every platform and
//! is compared character by character: its model is the sequence of its
//! characters.

use vstd::prelude::*;
use vstd::std_specs::iter::IteratorSpec;

verus! {

/// The separator between the components of an asset path.
pub const SEPARATOR: char = '/';

/// The dot that introduces a file extension.
pub const DOT: char = '.';

/// `dir` as the prefix shared by everything below it: `dir` itself when it
/// already ends with a separator, `dir` followed by a separator otherwise.
pub open spec fn as_folder(dir: Seq<char>) -> Seq<char> {
    if dir.len() > 0 && dir.last() == SEPARATOR {
        dir
    } else {
        dir.push(SEPARATOR)
    }
}

/// `key` lies below `dir`, directly or not: it starts with `dir` taken as a
/// folder and is not `dir` itself.
pub open spec fn spec_is_descendant(dir: Seq<char>, key: Seq<char>) -> bool {
    as_folder(dir).is_prefix_of(key) && key != dir
}

/// Where the file name of `path` starts: behind its last separator, or at 0
/// when it holds none.
pub open spec fn file_name_start(path: Seq<char>) -> int
    decreases path.len(),
{
    if path.len() == 0 {
        0
    } else if path.last() == SEPARATOR {
        path.len() as int
    } else {
        file_name_start(path.drop_last())
    }
}

/// The last component of `path`.
pub open spec fn file_name(path: Seq<char>) -> Seq<char> {
    path.skip(file_name_start(path))
}

/// The name `..`, which stands for the parent folder and has no extension.
pub open spec fn parent_name() -> Seq<char> {
    seq![DOT, DOT]
}

/// `path` carries a file extension: its file name is not `..` and holds a
/// dot behind its first character. What follows the last dot is the
/// extension; it may be empty.
pub open spec fn spec_has_extension(path: Seq<char>) -> bool {
    let name = file_name(path);
    name != parent_name() && exists|i: int| 1 <= i < name.len() && name[i] == DOT
}

/// What is appended to a path to name its metadata sidecar.
pub open spec fn meta_suffix() -> Seq<char> {
    seq!['.', 'm', 'e', 't', 'a']
}

/// Where the extension of `path` starts: behind its last dot.
pub open spec fn extension_start(path: Seq<char>) -> int
    decreases path.len(),
{
    if path.len() == 0 {
        0
    } else if path.last() == DOT {
        path.len() as int
    } else {
        extension_start(path.drop_last())
    }
}

/// The extension of a path that carries one: what follows its last dot.
pub open spec fn extension(path: Seq<char>) -> Seq<char> {
    path.skip(extension_start(path))
}

/// `path` with `new_extension` in place of its extension.
pub open spec fn with_extension(path: Seq<char>, new_extension: Seq<char>) -> Seq<char> {
    path.take(extension_start(path)) + new_extension
}

/// The path of the metadata sidecar of `path`: the extension `E` of `path`
/// becomes `E.meta`, the rest stays.
pub open spec fn meta_path(path: Seq<char>) -> Seq<char> {
    with_extension(path, extension(path) + meta_suffix())
}

/// The extension of a path that carries one starts inside its file name,
/// behind a dot that is not the first character of the name, and holds no
/// dot.
pub proof fn lemma_extension_start(path: Seq<char>)
    requires
        spec_has_extension(path),
    ensures
        file_name_start(path) + 1 < extension_start(path) <= path.len(),
        path[extension_start(path) - 1] == DOT,
        forall|j: int| extension_start(path) <= j < path.len() ==> path[j] != DOT,
{
    lemma_file_name_start(path);
    lemma_last_dot(path);
}

/// Behind the start of the extension there is no dot, and before it there
/// is one unless the start is the front of the path.
proof fn lemma_last_dot(path: Seq<char>)
    ensures
        0 <= extension_start(path) <= path.len(),
        extension_start(path) == 0 || path[extension_start(path) - 1] == DOT,
        forall|j: int| extension_start(path) <= j < path.len() ==> path[j] != DOT,
    decreases path.len(),
{
    if path.len() > 0 && path.last() != DOT {
        let front = path.drop_last();
        lemma_last_dot(front);
        assert forall|j: int| extension_start(path) <= j < path.len() implies path[j] != DOT by {
            if j < front.len() {
                assert(front[j] == path[j]);
            }
        }
    }
}

/// The metadata path of a path is the path with `.meta` behind it.
pub proof fn lemma_meta_path(path: Seq<char>)
    ensures
        meta_path(path) == path + meta_suffix(),
{
    lemma_last_dot(path);
}

/// The file name starts inside the path, directly behind a separator or at
/// the front, and holds no separator.
pub proof fn lemma_file_name_start(path: Seq<char>)
    ensures
        0 <= file_name_start(path) <= path.len(),
        file_name_start(path) == 0 || path[file_name_start(path) - 1] == SEPARATOR,
        forall|j: int| file_name_start(path) <= j < path.len() ==> path[j] != SEPARATOR,
    decreases path.len(),
{
    if path.len() > 0 && path.last() != SEPARATOR {
        let front = path.drop_last();
        lemma_file_name_start(front);
        assert forall|j: int| file_name_start(path) <= j < path.len() implies path[j]
            != SEPARATOR by {
            if j < front.len() {
                assert(front[j] == path[j]);
            }
        }
    }
}

/// One more character moves the start of the file name only if it is a
/// separator.
proof fn lemma_file_name_start_step(path: Seq<char>, k: int)
    requires
        0 <= k < path.len(),
    ensures
        file_name_start(path.take(k + 1)) == if path[k] == SEPARATOR {
            k + 1
        } else {
            file_name_start(path.take(k))
        },
{
    assert(path.take(k + 1).drop_last() =~= path.take(k));
}

/// Whether `key` lies below `dir`.
pub fn is_descendant(dir: &str, key: &str) -> (r: bool)
    ensures
        r == spec_is_descendant(dir@, key@),
{
    let mut dir_chars = dir.chars();
    let mut key_chars = key.chars();
    let mut ends_with_separator = false;
    let ghost mut k: int = 0;
    loop
        invariant
            0 <= k <= dir@.len(),
            k <= key@.len(),
            dir_chars.remaining() == dir@.skip(k),
            key_chars.remaining() == key@.skip(k),
            dir@.take(k) == key@.take(k),
            ends_with_separator == (k > 0 && dir@[k - 1] == SEPARATOR),
        decreases dir@.len() - k,
    {
        match dir_chars.next() {
            None => {
                return match key_chars.next() {
                    None => {
                        assert(key@ =~= key@.take(k));
                        false
                    },
                    Some(c) => {
                        assert(as_folder(dir@).is_prefix_of(key@) == (ends_with_separator || c
                            == SEPARATOR)) by {
                            if !ends_with_separator && as_folder(dir@).is_prefix_of(key@) {
                                assert(as_folder(dir@)[k] == key@.subrange(0, k + 1)[k]);
                            }
                        }
                        ends_with_separator || c == SEPARATOR
                    },
                };
            },
            Some(d) => {
                match key_chars.next() {
                    None => {
                        return false;
                    },
                    Some(c) => {
                        if d != c {
                            assert(!as_folder(dir@).is_prefix_of(key@)) by {
                                if as_folder(dir@).is_prefix_of(key@) {
                                    assert(as_folder(dir@)[k] == key@.subrange(
                                        0,
                                        as_folder(dir@).len() as int,
                                    )[k]);
                                }
                            }
                            return false;
                        }
                        ends_with_separator = d == SEPARATOR;
                        proof {
                            k = k + 1;
                        }
                    },
                }
            },
        }
    }
}

/// What has been read of the file name so far, as far as `..` is concerned.
#[derive(Clone, Copy, PartialEq, Eq, Structural)]
enum NameShape {
    Empty,
    OneDot,
    TwoDots,
    Other,
}

/// Whether `path` carries a file extension.
pub fn has_extension(path: &str) -> (r: bool)
    ensures
        r == spec_has_extension(path@),
{
    let mut chars = path.chars();
    let mut shape = NameShape::Empty;
    let mut inner_dot = false;
    let ghost mut k: int = 0;
    let ghost mut start: int = 0;
    loop
        invariant
            0 <= start <= k <= path@.len(),
            chars.remaining() == path@.skip(k),
            start == file_name_start(path@.take(k)),
            inner_dot == (exists|i: int| start + 1 <= i < k && path@[i] == DOT),
            shape == NameShape::Empty <==> k == start,
            shape == NameShape::OneDot <==> k == start + 1 && path@[start] == DOT,
            shape == NameShape::TwoDots <==> k == start + 2 && path@[start] == DOT && path@[start
                + 1] == DOT,
        decreases path@.len() - k,
    {
        match chars.next() {
            None => {
                proof {
                    assert(path@.take(k) =~= path@);
                    let name = file_name(path@);
                    if shape == NameShape::TwoDots {
                        assert(name =~= parent_name());
                    }
                    if inner_dot {
                        let i = choose|i: int| start + 1 <= i < k && path@[i] == DOT;
                        assert(name[i - start] == DOT);
                    }
                }
                return inner_dot && shape != NameShape::TwoDots;
            },
            Some(c) => {
                proof {
                    lemma_file_name_start_step(path@, k);
                }
                if c == SEPARATOR {
                    shape = NameShape::Empty;
                    inner_dot = false;
                    proof {
                        start = k + 1;
                    }
                } else {
                    if c == DOT {
                        if shape != NameShape::Empty {
                            inner_dot = true;
                        }
                        shape = match shape {
                            NameShape::Empty => NameShape::OneDot,
                            NameShape::OneDot => NameShape::TwoDots,
                            _ => NameShape::Other,
                        };
                    } else {
                        shape = NameShape::Other;
                    }
                }
                proof {
                    k = k + 1;
                }
            },
        }
    }
}

} // verus!
