//! Tuning constants of the hashing run.
use vstd::prelude::*;

verus! {

/// Bytes read at a time when hashing a file's content.
pub const FILE_BUFFER_SIZE: usize = 64 * 1024;

/// Files of at most this many bytes go to the small-file workers.
pub const SMALL_FILE_SIZE_THRESHOLD: u64 = 1024 * 1024;

pub const SMALL_FILE_THREADS: usize = 2;

pub const LARGE_FILE_THREADS: usize = 2;

} // verus!
