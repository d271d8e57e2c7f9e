//! The content-hash capability and the names under which hash algorithms appear.
use vstd::prelude::*;

use crate::hash::{hex_decode, hex_of, is_hex_text};
use crate::text::str_eq;

verus! {

/// The closed set of content-hash algorithms that manifests can declare.
#[derive(Clone, Copy, Debug, PartialEq, Eq, Structural)]
pub enum HashType {
    MD5,
}

/// The manifest file-name suffix of each algorithm.
pub open spec fn suffix_of(t: HashType) -> Seq<char> {
    match t {
        HashType::MD5 => "ddmd5"@,
    }
}

/// Maps a manifest file-name suffix to the hash algorithm it stands for.
pub fn hash_type_suffix_parse(input: &str) -> (r: Option<HashType>)
    ensures
        r == (if input@ == "ddmd5"@ {
            Some(HashType::MD5)
        } else {
            None::<HashType>
        }),
{
    if str_eq(input, "ddmd5") {
        Some(HashType::MD5)
    } else {
        None
    }
}

/// The manifest file-name suffix of an algorithm.
pub fn hash_type_to_suffix(hash_type: &HashType) -> (r: &'static str)
    ensures
        r@ == suffix_of(*hash_type),
{
    match hash_type {
        HashType::MD5 => "ddmd5",
    }
}

/// Maps the algorithm token of a manifest's `Hash:` header to the algorithm; both the
/// lower-case name and the upper-case signature that manifests are written with are known.
pub fn hash_string_to_type(input: &str) -> (r: Option<HashType>)
    ensures
        r == (if input@ == "md5"@ || input@ == "MD5"@ {
            Some(HashType::MD5)
        } else {
            None::<HashType>
        }),
{
    if str_eq(input, "md5") || str_eq(input, "MD5") {
        Some(HashType::MD5)
    } else {
        None
    }
}

/// Lexicographic order of two byte strings of the same length.
pub open spec fn lex_cmp(a: Seq<u8>, b: Seq<u8>) -> core::cmp::Ordering
    decreases a.len(),
{
    if a.len() == 0 || b.len() == 0 {
        core::cmp::Ordering::Equal
    } else if a[0] < b[0] {
        core::cmp::Ordering::Less
    } else if a[0] > b[0] {
        core::cmp::Ordering::Greater
    } else {
        lex_cmp(a.drop_first(), b.drop_first())
    }
}

/// A fixed-width content digest: built from raw digest bytes or from its canonical
/// lower-case hex text, compared byte by byte, and written back as that hex text.
pub trait HashValue: Sized {
    /// The raw digest bytes.
    spec fn spec_bytes(&self) -> Seq<u8>;

    /// How many bytes a digest of this algorithm has.
    spec fn spec_width() -> nat;

    /// The token that names the algorithm in a manifest's `Hash:` header.
    spec fn spec_signature() -> Seq<char>;

    spec fn spec_hash_type() -> HashType;

    /// Builds a digest from its raw bytes; fails when the length is not the algorithm's.
    fn new(bytes: &[u8]) -> (r: Option<Self>)
        ensures
            r is Some <==> bytes@.len() == Self::spec_width(),
            r matches Some(h) ==> h.spec_bytes() == bytes@,
    ;

    /// Builds a digest from hex text (either case); fails on a wrong length or a non-hex
    /// character.
    fn new_from_string(input: &str) -> (r: Option<Self>)
        ensures
            r is Some <==> is_hex_text(input@, Self::spec_width()),
            r matches Some(h) ==> h.spec_bytes() == hex_decode(input@),
    ;

    fn equals(&self, other: &Self) -> (r: bool)
        ensures
            r == (self.spec_bytes() == other.spec_bytes()),
    ;

    /// Orders digests lexicographically by their bytes.
    fn compare(&self, other: &Self) -> (r: core::cmp::Ordering)
        ensures
            r == lex_cmp(self.spec_bytes(), other.spec_bytes()),
    ;

    fn equals_bytes(&self, bytes: &[u8]) -> (r: bool)
        ensures
            r == (self.spec_bytes() == bytes@),
    ;

    /// The canonical lower-case hex text.
    fn to_string(&self) -> (r: String)
        ensures
            r@ == hex_of(self.spec_bytes()),
    ;

    fn hash_type() -> (r: HashType)
        ensures
            r == Self::spec_hash_type(),
    ;

    /// Whether a `Hash:` header token names this algorithm.
    fn parse_hash_type_string(input: &str) -> (r: bool)
        ensures
            r == (input@ == Self::spec_signature()),
    ;

    fn signature_to_string() -> (r: &'static str)
        ensures
            r@ == Self::spec_signature(),
    ;
}

} // verus!
