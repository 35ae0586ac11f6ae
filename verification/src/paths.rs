//! What the library takes from `std::path`: the last component of a path,
//! and the stem of a file name.

use vstd::prelude::*;

verus! {

/// The file name that `std::path::Path::file_name` finds in a path: its last
/// component, or `None` where the path ends in `..` or has no component at
/// all. It depends on nothing but the characters of the path and the
/// platform's rules for separators, which are fixed when the library is
/// compiled.
pub uninterp spec fn path_file_name(path: Seq<char>) -> Option<Seq<char>>;

/// The stem of a file name: the whole name where it holds no dot, or none
/// but a leading one, and else what stands before its last dot.
pub open spec fn name_stem(name: Seq<char>) -> Seq<char> {
    match name.index_of_last('.') {
        Some(k) => if k == 0 {
            name
        } else {
            name.take(k)
        },
        None => name,
    }
}

/// The stem of the file that a path names, or `None` where it names none.
pub open spec fn path_file_stem(path: Seq<char>) -> Option<Seq<char>> {
    match path_file_name(path) {
        Some(name) => Some(name_stem(name)),
        None => None,
    }
}

/// The stem of a path, or nothing where it has none.
pub open spec fn basename_text(path: Seq<char>) -> Seq<char> {
    match path_file_stem(path) {
        Some(stem) => stem,
        None => Seq::empty(),
    }
}

/// `Path::file_name`, on a path given as text and with the name handed back
/// as text. Nothing is claimed of the name but that it is the one named by
/// `path_file_name`.
#[verifier::external_body]
pub(crate) fn file_name(path: &str) -> (name: Option<String>)
    ensures
        match name {
            Some(text) => path_file_name(path@) == Some(text@),
            None => path_file_name(path@) is None,
        },
{
    let name = std::path::Path::new(path).file_name()?;
    Some(name.to_string_lossy().into_owned())
}

/// `Path::file_stem`, on a path given as text and with the stem handed back
/// as text. There is a stem exactly where there is a file name, and it is
/// the part of the file name that `name_stem` describes.
#[verifier::external_body]
pub(crate) fn file_stem(path: &str) -> (stem: Option<String>)
    ensures
        match stem {
            Some(text) => path_file_name(path@) is Some && text@ == name_stem(
                path_file_name(path@)->0,
            ),
            None => path_file_name(path@) is None,
        },
{
    let stem = std::path::Path::new(path).file_stem()?;
    Some(stem.to_string_lossy().into_owned())
}

/// Where the last dot of a text stands: at `k`, if there is a dot at `k` and
/// none after it.
pub proof fn lemma_last_dot(name: Seq<char>, k: int)
    requires
        0 <= k < name.len(),
        name[k] == '.',
        forall|j: int| k < j < name.len() ==> name[j] != '.',
    ensures
        name.index_of_last('.') == Some(k),
{
    name.index_of_last_ensures('.');
    assert(name.contains('.'));
}

/// A file name made of a stem, a dot and an extension without a dot has
/// that stem, unless the stem is empty.
pub proof fn lemma_stem_of_name(stem: Seq<char>, extension: Seq<char>)
    requires
        stem.len() > 0,
        !extension.contains('.'),
    ensures
        name_stem(stem + seq!['.'] + extension) == stem,
{
    let name = stem + seq!['.'] + extension;
    let k = stem.len() as int;
    assert forall|j: int| k < j < name.len() implies name[j] != '.' by {
        assert(name[j] == extension[j - k - 1]);
    }
    lemma_last_dot(name, k);
    assert(name.take(k) =~= stem);
}

/// Strips directories and extension from a path and hands back what is left
/// of the file's name; an empty text where the path names no file.
pub fn get_basename(filename: &str) -> (stem: String)
    ensures
        stem@ == basename_text(filename@),
{
    match file_stem(filename) {
        Some(stem) => stem,
        None => String::new(),
    }
}

} // verus!
