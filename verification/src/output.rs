//! What a writer hands to its caller to be put on disk.

use vstd::prelude::*;

verus! {

/// A file to be written in full, in place of whatever the path holds: the
/// caller writes the contents beside the path and renames, so that no reader
/// sees a part of the file.
#[derive(Clone, Debug, PartialEq, Eq)]
pub struct FileWrite {
    pub path: String,
    pub contents: String,
}

impl FileWrite {
    /// The path and the contents.
    pub open spec fn view(&self) -> (Seq<char>, Seq<char>) {
        (self.path@, self.contents@)
    }
}

} // verus!
