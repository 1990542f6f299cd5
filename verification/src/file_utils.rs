use std::path::PathBuf;
use vstd::prelude::*;

verus! {

#[verifier::external_type_specification]
#[verifier::external_body]
pub struct ExPathBuf(PathBuf);

/// `PathBuf::clone` (std). Nothing is stated of the copy: the path is opaque here.
pub assume_specification[ <PathBuf as Clone>::clone ](p: &PathBuf) -> PathBuf;

/// A directory entry as a listing reports it: its path, whether it is a
/// directory, and the stem and extension of its file name.
#[derive(Debug, Clone)]
pub struct MyDirEntry {
    pub path: PathBuf,
    pub is_dir: bool,
    pub stem: String,
    pub extension: String,
}

/// The text of a name part that may be missing: empty when it is.
pub open spec fn part_or_empty(part: Option<String>) -> Seq<char> {
    match part {
        Some(s) => s@,
        None => Seq::empty(),
    }
}

/// Turns an optional name part into text, empty when it is missing.
fn part_text(part: Option<String>) -> (s: String)
    ensures
        s@ == part_or_empty(part),
{
    match part {
        Some(s) => s,
        None => String::new(),
    }
}

impl MyDirEntry {
    /// The entry for one item of a directory listing, from what was read of it:
    /// its path, whether it is a directory (`None` when its file type could not
    /// be read, which leaves it out of the listing), and the stem and extension
    /// of its name (`None` when missing or not valid text, which gives an
    /// empty string).
    pub fn from_parts(
        path: PathBuf,
        is_dir: Option<bool>,
        stem: Option<String>,
        extension: Option<String>,
    ) -> (r: Option<MyDirEntry>)
        ensures
            r is Some <==> is_dir is Some,
            r matches Some(e) ==> {
                &&& e.path == path
                &&& e.is_dir == is_dir->0
                &&& e.stem@ == part_or_empty(stem)
                &&& e.extension@ == part_or_empty(extension)
            },
    {
        let stem = part_text(stem);
        let extension = part_text(extension);
        match is_dir {
            Some(d) => Some(MyDirEntry { path, is_dir: d, stem, extension }),
            None => None,
        }
    }
}

} // verus!
