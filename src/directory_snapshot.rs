//! A set of file records under a common base directory.
use vstd::prelude::*;

use crate::file_st::FileSt;

verus! {

/// The files found under `base_path`, from a directory walk or from a manifest.
pub struct DirectorySnapshot {
    pub base_path: String,
    pub files: Vec<FileSt>,
}

impl DirectorySnapshot {
    pub fn new(path: String, files: Vec<FileSt>) -> (r: DirectorySnapshot)
        ensures
            r.base_path@ == path@,
            r.files@ == files@,
    {
        DirectorySnapshot { base_path: path, files }
    }

    pub fn new_empty(path: String) -> (r: DirectorySnapshot)
        ensures
            r.base_path@ == path@,
            r.files@.len() == 0,
    {
        DirectorySnapshot { base_path: path, files: Vec::new() }
    }
}

} // verus!
