//! File paths.
//!
//! What a path holds is up to the platform, so paths are opaque here. Contracts
//! speak of a path through what its methods give: its text, its file name, its
//! parent, what it makes when joined.
use std::path::{Path, PathBuf};

use vstd::prelude::*;
use vstd::string::*;

use crate::text::chars_of;

verus! {

/// `std::path::Path`, opaque.
#[verifier::external_type_specification]
#[verifier::external_body]
pub struct ExPath(std::path::Path);

/// `std::path::PathBuf`, opaque.
#[verifier::external_type_specification]
#[verifier::external_body]
pub struct ExPathBuf(std::path::PathBuf);

/// The text of a path, as `Path::to_string_lossy` gives it.
pub uninterp spec fn path_text(path: &Path) -> Seq<char>;

/// The last component of a path, as `Path::file_name` gives it, in text.
pub uninterp spec fn file_name_of(path: &Path) -> Option<Seq<char>>;

/// The path without its last component, as `Path::parent` gives it.
pub uninterp spec fn parent_of(path: &Path) -> Option<&Path>;

/// The path that a path buffer holds, as `PathBuf::as_path` gives it.
pub uninterp spec fn path_of(buf: &PathBuf) -> &Path;

/// The path that `PathBuf::from` reads in a text.
pub uninterp spec fn path_from(text: Seq<char>) -> PathBuf;

/// The path that `Path::join` makes of a path and a name below it.
pub uninterp spec fn joined(base: &Path, name: Seq<char>) -> PathBuf;

/// `Path::to_string_lossy`, named by [`path_text`].
#[verifier::external_body]
pub(crate) fn to_string_lossy(path: &Path) -> (text: String)
    ensures
        text@ == path_text(path),
{
    path.to_string_lossy().to_string()
}

/// `Path::file_name`, named by [`file_name_of`], its text read as by
/// `to_string_lossy`.
#[verifier::external_body]
pub(crate) fn file_name(path: &Path) -> (name: Option<String>)
    ensures
        name is Some <==> file_name_of(path) is Some,
        name is Some ==> name->0@ == file_name_of(path)->0,
{
    path.file_name().map(|name| name.to_string_lossy().to_string())
}

/// `Path::join`, named by [`joined`]. A plain name becomes the last component
/// of the path that is made, or a part of its prefix: on Windows `\\server`
/// takes the name for that of a share. Only a base that begins with two
/// separators has such a prefix. A path that does not begin so is made of any
/// other base but a single backslash, which is a file name on Unix: a separator
/// follows it there.
#[verifier::external_body]
pub(crate) fn join(base: &Path, name: &str) -> (path: PathBuf)
    ensures
        path == joined(base, name@),
        is_plain_name(name@) ==> file_name_of(path_of(&path)) == Some(name@) || file_name_of(
            path_of(&path),
        ) is None,
        is_plain_name(name@) && !begins_like_server(path_text(base)) ==> file_name_of(
            path_of(&path),
        ) == Some(name@),
        is_plain_name(name@) && !begins_like_server(path_text(base)) && path_text(base) != "\\"@
            ==> !begins_like_server(path_text(path_of(&path))) && path_text(path_of(&path))
            != "\\"@,
{
    base.join(name)
}

/// `PathBuf::from` on a text, named by [`path_from`].
#[verifier::external_body]
pub(crate) fn from_text(text: &str) -> (path: PathBuf)
    ensures
        path == path_from(text@),
{
    PathBuf::from(text)
}

/// `Path::parent`, named by [`parent_of`].
pub assume_specification[ Path::parent ](path: &Path) -> (parent: Option<&Path>)
    ensures
        parent == parent_of(path),
;

/// `PathBuf::as_path`, named by [`path_of`].
pub assume_specification[ PathBuf::as_path ](buf: &PathBuf) -> (path: &Path)
    ensures
        path == path_of(buf),
;

/// `PathBuf::clone`: the copy is the same path.
pub assume_specification[ <PathBuf as Clone>::clone ](buf: &PathBuf) -> (copy: PathBuf)
    ensures
        copy == *buf,
;

/// A letter or a digit of ASCII.
pub open spec fn is_alphanumeric(c: char) -> bool {
    '0' <= c <= '9' || 'A' <= c <= 'Z' || 'a' <= c <= 'z'
}

/// A separator of the components of a path on some platform.
pub open spec fn is_separator(c: char) -> bool {
    c == '/' || c == '\\'
}

/// The text begins with two separators, as the paths of servers, shares and
/// devices do on Windows.
pub open spec fn begins_like_server(text: Seq<char>) -> bool {
    text.len() >= 2 && is_separator(text[0]) && is_separator(text[1])
}

/// A name of ASCII letters, digits and dots that begins with a letter or a
/// digit. It has no separator and no colon, and is neither `.` nor `..`.
pub open spec fn is_plain_name(name: Seq<char>) -> bool {
    &&& name.len() > 0
    &&& is_alphanumeric(name[0])
    &&& forall|i: int|
        0 <= i < name.len() ==> is_alphanumeric(#[trigger] name[i]) || name[i] == '.'
}

/// The place of the last dot in a name, -1 if it has none.
pub open spec fn last_dot(name: Seq<char>) -> int
    decreases name.len(),
{
    if name.len() == 0 {
        -1
    } else if name.last() == '.' {
        name.len() - 1
    } else {
        last_dot(name.drop_last())
    }
}

/// The extension of a file name: what follows its last dot, if there is a dot
/// other than the first character. The name `..` of a directory has none.
pub open spec fn extension_of_name(name: Seq<char>) -> Option<Seq<char>> {
    if last_dot(name) > 0 && name != ".."@ {
        Some(name.skip(last_dot(name) + 1))
    } else {
        None
    }
}

/// The extension of a path: that of its file name, if it has one.
pub open spec fn extension_of(path: &Path) -> Option<Seq<char>> {
    match file_name_of(path) {
        Some(name) => extension_of_name(name),
        None => None,
    }
}

/// The extension of a file name.
pub fn name_extension(name: &str) -> (extension: Option<String>)
    ensures
        extension is Some <==> extension_of_name(name@) is Some,
        extension is Some ==> extension->0@ == extension_of_name(name@)->0,
{
    let chars = chars_of(name);
    let mut end: usize = chars.len();
    assert(name@.take(end as int) =~= name@);
    while end > 0 && chars[end - 1] != '.'
        invariant
            end <= chars.len(),
            chars@ == name@,
            last_dot(name@) == last_dot(name@.take(end as int)),
        decreases end,
    {
        assert(name@.take(end as int).drop_last() =~= name@.take(end - 1));
        end = end - 1;
    }
    let is_parent = chars.len() == 2 && chars[0] == '.' && chars[1] == '.';
    proof {
        reveal_strlit("..");
        assert(is_parent ==> name@ =~= ".."@);
    }
    if end > 1 && !is_parent {
        assert(name@.subrange(end as int, name@.len() as int) =~= name@.skip(last_dot(name@) + 1));
        Some(name.substring_char(end, chars.len()).to_owned())
    } else {
        None
    }
}

/// The extension of a path's file name.
pub fn extension(path: &Path) -> (extension: Option<String>)
    ensures
        extension is Some <==> extension_of(path) is Some,
        extension is Some ==> extension->0@ == extension_of(path)->0,
{
    match file_name(path) {
        Some(name) => name_extension(name.as_str()),
        None => None,
    }
}

/// What follows a dot and has none in it is the extension, if something stands
/// before the dot and the name is not `..`. A name without a dot behind its first
/// character has no extension.
pub proof fn law_extension_follows_the_last_dot(stem: Seq<char>, ext: Seq<char>, name: Seq<char>)
    requires
        stem.len() > 0,
        forall|i: int| 0 <= i < ext.len() ==> #[trigger] ext[i] != '.',
        forall|i: int| 0 < i < name.len() ==> #[trigger] name[i] != '.',
    ensures
        extension_of_name(stem + seq!['.'] + ext) == if stem == seq!['.'] && ext.len() == 0 {
            None
        } else {
            Some(ext)
        },
        extension_of_name(name) is None,
{
    reveal_strlit("..");
    let full = stem + seq!['.'] + ext;
    lemma_last_dot(full, stem.len() as int);
    assert(full.skip(stem.len() as int + 1) =~= ext);
    if full == ".."@ {
        assert(full.len() == 2 && full[0] == '.');
        assert(stem =~= seq!['.']);
    }
    if stem == seq!['.'] && ext.len() == 0 {
        assert(full =~= ".."@);
    }
    if last_dot(name) > 0 {
        lemma_dot_is_there(name);
    }
}

/// A path without a file name has no extension, any other that of its name.
pub proof fn law_extension_is_that_of_the_file_name(path: &Path)
    ensures
        file_name_of(path) is None ==> extension_of(path) is None,
        file_name_of(path) matches Some(name) ==> extension_of(path) == extension_of_name(name),
{
}

/// Behind the last dot there is none.
proof fn lemma_last_dot(name: Seq<char>, at: int)
    requires
        0 <= at < name.len(),
        name[at] == '.',
        forall|i: int| at < i < name.len() ==> #[trigger] name[i] != '.',
    ensures
        last_dot(name) == at,
    decreases name.len(),
{
    if at < name.len() - 1 {
        lemma_last_dot(name.drop_last(), at);
    }
}

/// The last dot is a dot.
proof fn lemma_dot_is_there(name: Seq<char>)
    ensures
        last_dot(name) < name.len(),
        last_dot(name) >= 0 ==> name[last_dot(name)] == '.',
    decreases name.len(),
{
    if name.len() > 0 && name.last() != '.' {
        lemma_dot_is_there(name.drop_last());
    }
}

} // verus!
