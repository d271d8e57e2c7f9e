//! Size and whole-second modification time of a file, and their manifest comment text.
use vstd::prelude::*;

use crate::text::{
    chars_of, dec, find_sep, find_sep_from, has_prefix, parse_u64, parse_u64_spec, push_all, push_decimal,
    starts_with_at, string_of,
};

verus! {

/// A point in time as seconds and nanoseconds since the Unix epoch (times before the epoch
/// are represented by the epoch itself).
#[derive(Clone, Copy, Debug, PartialEq, Eq, Structural)]
pub struct Timestamp {
    pub secs: u64,
    pub nanos: u32,
}

/// A file's size and its modification time truncated to whole seconds: manifests store
/// whole seconds only, so a sub-second difference is never a change.
#[derive(Clone, Copy, Debug, PartialEq, Eq, Structural)]
pub struct FileMetadata {
    pub last_modified: u64,
    pub size: u64,
}

/// Why a metadata comment could not be read.
#[derive(Clone, Copy, Debug, PartialEq, Eq, Structural)]
pub enum MetadataError {
    InvalidFormat,
    InvalidSize,
    InvalidTimestamp,
}

impl MetadataError {
    pub fn message(&self) -> (r: &'static str) {
        match self {
            MetadataError::InvalidFormat => "Invalid metadata string format",
            MetadataError::InvalidSize => "Invalid size format",
            MetadataError::InvalidTimestamp => "Invalid timestamp format",
        }
    }
}

/// The metadata recorded for a file of `size` bytes modified at `t`.
pub open spec fn metadata_of(t: Timestamp, size: u64) -> FileMetadata {
    FileMetadata { last_modified: t.secs, size }
}

/// Whether two metadata records differ in size or in whole seconds of modification.
pub open spec fn is_dirty(a: FileMetadata, b: FileMetadata) -> bool {
    a.size != b.size || a.last_modified != b.last_modified
}

/// The comment text of some metadata: `Size: <bytes>, Last modified: <seconds>`.
pub open spec fn metadata_text(m: FileMetadata) -> Seq<char> {
    "Size: "@ + dec(m.size as nat) + ", Last modified: "@ + dec(m.last_modified as nat)
}

/// What reading a metadata comment gives: the text must split at `, ` into exactly two
/// parts, `Size: <u64>` and `Last modified: <u64>`.
pub open spec fn metadata_parse(s: Seq<char>) -> Result<FileMetadata, MetadataError> {
    let p = find_sep_from(s, 0);
    if p >= s.len() || find_sep_from(s, p + 2) < s.len() {
        Err(MetadataError::InvalidFormat)
    } else {
        let a = s.subrange(0, p);
        let b = s.subrange(p + 2, s.len() as int);
        if !has_prefix(a, "Size: "@) || parse_u64_spec(a.skip("Size: "@.len() as int)) is None {
            Err(MetadataError::InvalidSize)
        } else if !has_prefix(b, "Last modified: "@) || parse_u64_spec(
            b.skip("Last modified: "@.len() as int),
        ) is None {
            Err(MetadataError::InvalidTimestamp)
        } else {
            Ok(
                FileMetadata {
                    size: parse_u64_spec(a.skip("Size: "@.len() as int))->0,
                    last_modified: parse_u64_spec(b.skip("Last modified: "@.len() as int))->0,
                },
            )
        }
    }
}

/// Reads the metadata comment text `s[lo..hi)`.
pub fn parse_metadata(s: &Vec<char>, lo: usize, hi: usize) -> (r: Result<
    FileMetadata,
    MetadataError,
>)
    requires
        lo <= hi <= s@.len(),
    ensures
        r == metadata_parse(s@.subrange(lo as int, hi as int)),
{
    let ghost t = s@.subrange(lo as int, hi as int);
    let p = find_sep(s, lo, lo, hi);
    if p >= hi {
        return Err(MetadataError::InvalidFormat);
    }
    let q = find_sep(s, lo, p + 2, hi);
    if q < hi {
        return Err(MetadataError::InvalidFormat);
    }
    let size_tag = chars_of("Size: ");
    let time_tag = chars_of("Last modified: ");
    let ghost a = t.subrange(0, p - lo);
    let ghost b = t.subrange(p + 2 - lo, t.len() as int);
    assert(a =~= s@.subrange(lo as int, p as int));
    assert(b =~= s@.subrange(p + 2, hi as int));
    if !starts_with_at(s, lo, p, &size_tag) {
        return Err(MetadataError::InvalidSize);
    }
    assert(a.skip("Size: "@.len() as int) =~= s@.subrange(lo + size_tag@.len(), p as int));
    let size = match parse_u64(s, lo + size_tag.len(), p) {
        Some(v) => v,
        None => return Err(MetadataError::InvalidSize),
    };
    if !starts_with_at(s, p + 2, hi, &time_tag) {
        return Err(MetadataError::InvalidTimestamp);
    }
    assert(b.skip("Last modified: "@.len() as int) =~= s@.subrange(
        p + 2 + time_tag@.len(),
        hi as int,
    ));
    let secs = match parse_u64(s, p + 2 + time_tag.len(), hi) {
        Some(v) => v,
        None => return Err(MetadataError::InvalidTimestamp),
    };
    Ok(FileMetadata { last_modified: secs, size })
}

impl FileMetadata {
    /// Metadata of a file of `size` bytes modified at `last_modified`; the sub-second part
    /// of the time is dropped.
    pub fn new(last_modified: Timestamp, size: u64) -> (r: FileMetadata)
        ensures
            r == metadata_of(last_modified, size),
    {
        FileMetadata { last_modified: last_modified.secs, size }
    }

    /// Reads a metadata comment such as `Size: 12, Last modified: 1733589895`.
    pub fn new_from_string(input: &str) -> (r: Result<FileMetadata, MetadataError>)
        ensures
            r == metadata_parse(input@),
    {
        let s = chars_of(input);
        assert(s@.subrange(0, s@.len() as int) =~= s@);
        parse_metadata(&s, 0, s.len())
    }

    /// The comment text, as characters.
    pub fn to_chars(&self) -> (r: Vec<char>)
        ensures
            r@ == metadata_text(*self),
    {
        let mut out = chars_of("Size: ");
        push_decimal(&mut out, self.size);
        let sep = chars_of(", Last modified: ");
        push_all(&mut out, &sep);
        push_decimal(&mut out, self.last_modified);
        out
    }

    /// The comment text: `Size: <bytes>, Last modified: <seconds>`.
    pub fn to_string(&self) -> (r: String)
        ensures
            r@ == metadata_text(*self),
    {
        let v = self.to_chars();
        string_of(&v)
    }

    /// Whether two metadata records differ in size or in whole seconds of modification.
    pub fn differs(&self, other: &FileMetadata) -> (r: bool)
        ensures
            r == is_dirty(*self, *other),
    {
        self.size != other.size || self.last_modified != other.last_modified
    }
}

/// Timestamps that differ only below the second give metadata that is never taken for a
/// change.
pub proof fn lemma_subsecond_not_dirty(t1: Timestamp, t2: Timestamp, size: u64)
    requires
        t1.secs == t2.secs,
    ensures
        !is_dirty(metadata_of(t1, size), metadata_of(t2, size)),
{
}

/// The comment text of metadata reads back as the same metadata.
pub proof fn lemma_metadata_round_trip(m: FileMetadata)
    ensures
        metadata_parse(metadata_text(m)) == Ok::<FileMetadata, MetadataError>(m),
{
    reveal_strlit("Size: ");
    reveal_strlit(", Last modified: ");
    reveal_strlit("Last modified: ");
    let a = "Size: "@;
    let b = dec(m.size as nat);
    let c = ", Last modified: "@;
    let d = dec(m.last_modified as nat);
    let s = metadata_text(m);
    assert(s == a + b + c + d);
    crate::text::lemma_dec(m.size as nat);
    crate::text::lemma_dec(m.last_modified as nat);
    crate::text::lemma_parse_dec(m.size);
    crate::text::lemma_parse_dec(m.last_modified);
    let p: int = a.len() as int + b.len() as int;
    assert forall|k: int| 0 <= k < p implies s[k] != ',' by {
        if k < a.len() {
            assert(s[k] == a[k]);
        } else {
            assert(s[k] == b[k - a.len()]);
        }
    }
    crate::text::lemma_find_sep_skip(s, 0, p);
    assert(s[p] == ',' && s[p + 1] == ' ');
    assert(find_sep_from(s, p) == p);
    assert forall|k: int| p + 2 <= k < s.len() implies s[k] != ',' by {
        if k < p + c.len() {
            assert(s[k] == c[k - p]);
        } else {
            assert(s[k] == d[k - p - c.len()]);
        }
    }
    crate::text::lemma_find_sep_none(s, p + 2);
    let sa = s.subrange(0, p);
    let sb = s.subrange(p + 2, s.len() as int);
    assert(sa == a + b);
    assert(sa.subrange(0, a.len() as int) == a);
    assert(sa.skip(a.len() as int) == b);
    assert(sb == "Last modified: "@ + d);
    assert(sb.subrange(0, "Last modified: "@.len() as int) == "Last modified: "@);
    assert(sb.skip("Last modified: "@.len() as int) == d);
}

} // verus!
