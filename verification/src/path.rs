//! Paths: the file name of an item, its extension and its stem, and places
//! below a directory.

use std::path::PathBuf;
use vstd::prelude::*;
use crate::text::{chars_of, opt_text, string_of, texts};

verus! {

/// What `Path::file_name` finds in a path, by the path syntax of the platform
/// that the program is built for.
pub uninterp spec fn path_file_name(path: Seq<char>) -> Option<Seq<char>>;

/// Calls `Path::file_name`: the final component of the path, if it has one
/// that names a file or a directory. The contract claims only that the result
/// depends on the characters of the path.
#[verifier::external_body]
pub(crate) fn file_name(path: &str) -> (r: Option<String>)
    ensures
        opt_text(r) == path_file_name(path@),
{
    std::path::Path::new(path).file_name().and_then(|n| n.to_str()).map(String::from)
}

/// The extension of a file name: what follows its last dot, unless that dot
/// is its first character.
pub open spec fn name_extension(name: Seq<char>) -> Option<Seq<char>> {
    match name.index_of_last('.') {
        Some(i) if i > 0 => Some(name.skip(i + 1)),
        _ => None,
    }
}

/// A file name without its extension and the dot before it.
pub open spec fn name_stem(name: Seq<char>) -> Seq<char> {
    match name.index_of_last('.') {
        Some(i) if i > 0 => name.take(i),
        _ => name,
    }
}

fn last_dot(cs: &Vec<char>) -> (r: Option<usize>)
    ensures
        match r {
            Some(i) => cs@.index_of_last('.') == Some(i as int) && i < cs@.len(),
            None => cs@.index_of_last('.') is None,
        },
{
    let mut i: usize = cs.len();
    while i > 0
        invariant
            i <= cs@.len(),
            forall|j: int| i <= j < cs@.len() ==> cs@[j] != '.',
        decreases i,
    {
        i = i - 1;
        if cs[i] == '.' {
            proof {
                cs@.index_of_last_ensures('.');
            }
            return Some(i);
        }
    }
    proof {
        cs@.index_of_last_ensures('.');
    }
    None
}

/// The extension of a file name.
pub fn extension_of_name(name: &str) -> (r: Option<String>)
    ensures
        opt_text(r) == name_extension(name@),
{
    let cs = chars_of(name);
    match last_dot(&cs) {
        Some(i) => {
            if i == 0 {
                return None;
            }
            let to = cs.len();
            assert(cs@.subrange(i + 1, to as int) =~= cs@.skip(i + 1));
            Some(string_of(&cs, i + 1, to))
        },
        None => None,
    }
}

/// The stem of a file name.
pub fn stem_of_name(name: &str) -> (r: String)
    ensures
        r@ == name_stem(name@),
{
    let cs = chars_of(name);
    let to = cs.len();
    let end = match last_dot(&cs) {
        Some(i) => if i == 0 {
            to
        } else {
            i
        },
        None => to,
    };
    assert(cs@.subrange(0, to as int) =~= cs@);
    assert(end < to ==> cs@.subrange(0, end as int) =~= cs@.take(end as int));
    string_of(&cs, 0, end)
}

/// A path of the operating system, which need not be text. The library carries
/// it and does not look into it.
#[verifier::external_type_specification]
#[verifier::external_body]
pub struct ExPathBuf(PathBuf);

/// Calls `dirs::config_dir`: the directory for the settings of programs.
/// Whether there is one, and which, depends on the user and the machine, so
/// nothing is claimed of the result.
#[verifier::external_body]
pub(crate) fn config_dir() -> (r: Option<PathBuf>) {
    dirs::config_dir()
}

/// Where something is: the names that lead to it from a directory, one below
/// the other.
#[derive(Debug)]
pub struct Place {
    pub dir: PathBuf,
    pub names: Vec<String>,
}

#[verifier::ext_equal]
pub struct PlaceView {
    pub dir: PathBuf,
    pub names: Seq<Seq<char>>,
}

impl View for Place {
    type V = PlaceView;

    open spec fn view(&self) -> PlaceView {
        PlaceView { dir: self.dir, names: texts(self.names@) }
    }
}

/// A place, if there is one.
pub open spec fn opt_place(p: Option<Place>) -> Option<PlaceView> {
    match p {
        Some(p) => Some(p@),
        None => None,
    }
}

/// What follows the last dot is the extension, and what is before that dot the
/// stem. There is no extension where there is no dot or only one that is the
/// first character, and then the stem is the whole name.
pub proof fn law_extension_and_stem(stem: Seq<char>, ext: Seq<char>)
    requires
        !ext.contains('.'),
    ensures
        stem.len() > 0 ==> name_extension(stem.push('.') + ext) == Some(ext) && name_stem(
            stem.push('.') + ext,
        ) == stem,
        name_extension(ext) is None && name_stem(ext) == ext,
        name_extension(seq!['.'] + ext) is None && name_stem(seq!['.'] + ext) == seq!['.'] + ext,
{
    let name = stem.push('.') + ext;
    name.index_of_last_ensures('.');
    assert(name[stem.len() as int] == '.');
    assert(name.contains('.'));
    let k = name.index_of_last('.')->0;
    if k > stem.len() {
        assert(ext[k - stem.len() - 1] == '.');
    }
    assert(k == stem.len());
    assert(name.skip(k + 1) =~= ext);
    assert(name.take(k) =~= stem);
    ext.index_of_last_ensures('.');
    let hidden = seq!['.'] + ext;
    hidden.index_of_last_ensures('.');
    assert(hidden[0] == '.');
    assert(hidden.contains('.'));
    let h = hidden.index_of_last('.')->0;
    if h > 0 {
        assert(ext[h - 1] == '.');
    }
}

} // verus!
