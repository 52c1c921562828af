//! Ordinary file records: regular files the music classifier rejected.

use vstd::prelude::*;

verus! {

/// A regular file that is not a music file. A trivial wrapper with no
/// validation and no failure mode.
pub struct OrdinaryFile {
    /// Full path of the file.
    pub path: Vec<u8>,
    /// File name (the last path component).
    pub name: Vec<u8>,
}

impl OrdinaryFile {
    /// Wrap a rejected regular file.
    pub fn new(path: Vec<u8>, name: Vec<u8>) -> (r: OrdinaryFile)
        ensures
            r.path == path,
            r.name == name,
    {
        OrdinaryFile { path, name }
    }
}

} // verus!
