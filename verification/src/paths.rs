//! File-system paths, carried through the library as opaque values.
use vstd::prelude::*;
use std::path::{Path, PathBuf};

verus! {

#[verifier::external_type_specification]
#[verifier::external_body]
pub struct ExPathBuf(PathBuf);

#[verifier::external_type_specification]
#[verifier::external_body]
pub struct ExPath(Path);

/// The text of a path: its OS string read as characters, invalid sequences
/// replaced (`Path::to_string_lossy`). Paths are described through their text.
pub uninterp spec fn path_text(p: &Path) -> Seq<char>;

/// The text of an owned path (`PathBuf::to_string_lossy`).
pub uninterp spec fn pathbuf_text(p: &PathBuf) -> Seq<char>;

/// The last component of a path as UTF-8 text, when there is one and it is
/// valid UTF-8 (`Path::file_name`, then `OsStr::to_str`).
pub uninterp spec fn file_name_of(p: &Path) -> Option<Seq<char>>;

/// The text of the parent of a path, when it has one (`Path::parent`).
pub uninterp spec fn parent_text_of(p: &Path) -> Option<Seq<char>>;

/// The text of `base.join(name)` for a base path with text `base`
/// (`Path::join`: `name` appended as a new component, or replacing the base
/// when it is absolute; the rules are the platform's).
pub uninterp spec fn joined_text(base: Seq<char>, name: Seq<char>) -> Seq<char>;

/// `PathBuf::clone`: the same path.
pub assume_specification[ <PathBuf as Clone>::clone ](p: &PathBuf) -> (r: PathBuf)
    ensures
        pathbuf_text(&r) == pathbuf_text(p),
;

/// `Path::file_name` as UTF-8 text (`OsStr::to_str` converts the result): the
/// last component, named `file_name_of`.
#[verifier::external_body]
pub(crate) fn path_file_name(p: &Path) -> (r: Option<String>)
    ensures
        match r {
            Some(s) => file_name_of(p) == Some(s@),
            None => file_name_of(p) is None,
        },
{
    p.file_name().and_then(|s| s.to_str()).map(|s| s.to_string())
}

/// `Path::parent`: the parent path, whose text is named `parent_text_of`.
#[verifier::external_body]
pub(crate) fn path_parent(p: &Path) -> (r: Option<PathBuf>)
    ensures
        match r {
            Some(q) => parent_text_of(p) == Some(pathbuf_text(&q)),
            None => parent_text_of(p) is None,
        },
{
    p.parent().map(|q| q.to_path_buf())
}

/// `OsStr::is_empty` of the path (`PathBuf::as_os_str` converts): a path is
/// empty exactly when its text is.
#[verifier::external_body]
pub(crate) fn pathbuf_is_empty(p: &PathBuf) -> (b: bool)
    ensures
        b == (pathbuf_text(p).len() == 0),
{
    p.as_os_str().is_empty()
}

/// `Path::join` on an owned base.
#[verifier::external_body]
pub(crate) fn pathbuf_join(base: &PathBuf, name: &str) -> (r: PathBuf)
    ensures
        pathbuf_text(&r) == joined_text(pathbuf_text(base), name@),
{
    base.join(name)
}

/// `Path::join`.
#[verifier::external_body]
pub(crate) fn path_join(base: &Path, name: &str) -> (r: PathBuf)
    ensures
        pathbuf_text(&r) == joined_text(path_text(base), name@),
{
    base.join(name)
}

/// `PathBuf::from` a string: the path with exactly that text.
#[verifier::external_body]
pub(crate) fn path_from(name: &str) -> (r: PathBuf)
    ensures
        pathbuf_text(&r) == name@,
{
    PathBuf::from(name)
}

/// `Path::to_path_buf`: the same path, owned.
#[verifier::external_body]
pub(crate) fn path_to_buf(p: &Path) -> (r: PathBuf)
    ensures
        pathbuf_text(&r) == path_text(p),
{
    p.to_path_buf()
}

/// Whether a path is absolute (`Path::is_absolute`; the rules are the platform's).
pub uninterp spec fn is_absolute_path(p: &Path) -> bool;

/// `Path::is_absolute`.
#[verifier::external_body]
pub(crate) fn path_is_absolute(p: &Path) -> (b: bool)
    ensures
        b == is_absolute_path(p),
{
    p.is_absolute()
}

/// `Path::join` with a path as the new component.
#[verifier::external_body]
pub(crate) fn path_join_path(base: &Path, name: &Path) -> (r: PathBuf)
    ensures
        pathbuf_text(&r) == joined_text(path_text(base), path_text(name)),
{
    base.join(name)
}

} // verus!
