//! One file of a snapshot: its path, the hash a manifest recorded for it, the hash computed
//! in this run, and its metadata.
use vstd::prelude::*;

use crate::file_metadata::FileMetadata;
use crate::hash::HashMD5;

verus! {

/// A file, whether found on disk or read from a manifest. `loaded_hash` is set only for
/// records read from a manifest, `calculated_hash` only once the file's bytes were hashed.
#[derive(Debug)]
pub struct FileSt {
    pub path: String,
    pub loaded_hash: Option<HashMD5>,
    pub calculated_hash: Option<HashMD5>,
    pub metadata: FileMetadata,
}

impl FileSt {
    pub fn new(path: String, loaded_hash: Option<HashMD5>, metadata: FileMetadata) -> (r: FileSt)
        ensures
            r.path@ == path@,
            r.loaded_hash == loaded_hash,
            r.calculated_hash is None,
            r.metadata == metadata,
    {
        FileSt { path, loaded_hash, calculated_hash: None, metadata }
    }

    /// Records the outcome of hashing the file's content: a digest is stored as the
    /// calculated hash, a failure (`None`) leaves the record as it was.
    pub fn calc_hash(&mut self, digest: Option<HashMD5>) -> (r: bool)
        ensures
            r == digest is Some,
            final(self).path == old(self).path,
            final(self).loaded_hash == old(self).loaded_hash,
            final(self).metadata == old(self).metadata,
            final(self).calculated_hash == (if digest is Some {
                digest
            } else {
                old(self).calculated_hash
            }),
    {
        match digest {
            Some(h) => {
                self.calculated_hash = Some(h);
                true
            },
            None => false,
        }
    }
}

/// Two records are the same entry when both carry a loaded hash and the hashes agree, or
/// otherwise when their paths agree.
pub open spec fn same_entry(a: &FileSt, b: &FileSt) -> bool {
    match (a.loaded_hash, b.loaded_hash) {
        (Some(x), Some(y)) => x.bytes@ == y.bytes@,
        _ => a.path@ == b.path@,
    }
}

impl PartialEq for FileSt {
    fn eq(&self, other: &FileSt) -> (r: bool) {
        match (&self.loaded_hash, &other.loaded_hash) {
            (Some(x), Some(y)) => x == y,
            _ => self.path == other.path,
        }
    }
}

impl vstd::std_specs::cmp::PartialEqSpecImpl for FileSt {
    open spec fn obeys_eq_spec() -> bool {
        true
    }

    open spec fn eq_spec(&self, other: &FileSt) -> bool {
        same_entry(self, other)
    }
}

} // verus!
