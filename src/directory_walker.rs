//! Collects the files of a directory tree. Listing the tree is done by the caller; the walker
//! decides what a listing means.
use vstd::prelude::*;

use crate::file_st::FileSt;

verus! {

/// Why a directory walk gave no snapshot.
#[derive(Debug, PartialEq, Eq)]
pub enum WalkError {
    /// The listing itself failed, with the reason given by the file system.
    Io(String),
    NoFiles,
}

pub struct DirectoryWalker {
    pub base_path: String,
    pub files: Vec<FileSt>,
}

impl DirectoryWalker {
    pub fn new(path: String) -> (r: DirectoryWalker)
        ensures
            r.base_path@ == path@,
            r.files@.len() == 0,
    {
        DirectoryWalker { base_path: path, files: Vec::new() }
    }

    /// Takes the listing of the tree under `base_path`: a failed listing leaves no files and
    /// is reported as it came; a listing with no files is an error too.
    pub fn walk(&mut self, listing: Result<Vec<FileSt>, String>) -> (r: Result<(), WalkError>)
        ensures
            final(self).base_path == old(self).base_path,
            listing is Err ==> r == Err::<(), WalkError>(WalkError::Io(listing->Err_0))
                && final(self).files@.len() == 0,
            listing is Ok && listing->Ok_0@.len() == 0 ==> r == Err::<(), WalkError>(
                WalkError::NoFiles,
            ) && final(self).files@.len() == 0,
            listing is Ok && listing->Ok_0@.len() > 0 ==> r is Ok && final(self).files@
                == listing->Ok_0@,
    {
        match listing {
            Err(e) => {
                self.files = Vec::new();
                Err(WalkError::Io(e))
            },
            Ok(v) => {
                if v.len() == 0 {
                    self.files = Vec::new();
                    Err(WalkError::NoFiles)
                } else {
                    self.files = v;
                    Ok(())
                }
            },
        }
    }

    pub fn into_files(self) -> (r: Vec<FileSt>)
        ensures
            r@ == self.files@,
    {
        self.files
    }
}

} // verus!
