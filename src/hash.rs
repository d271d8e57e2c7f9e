//! MD5 digests and their canonical hex text.
use vstd::prelude::*;

use crate::hash_def::{lex_cmp, HashType, HashValue};
use crate::text::{chars_of, str_eq, string_of};

verus! {

/// The value of a hex digit of either case.
pub open spec fn hex_val(c: char) -> Option<u8> {
    if '0' <= c && c <= '9' {
        Some((c as u32 - '0' as u32) as u8)
    } else if 'a' <= c && c <= 'f' {
        Some((c as u32 - 'a' as u32 + 10) as u8)
    } else if 'A' <= c && c <= 'F' {
        Some((c as u32 - 'A' as u32 + 10) as u8)
    } else {
        None
    }
}

/// Hex text of exactly `width` bytes: two hex digits per byte.
pub open spec fn is_hex_text(s: Seq<char>, width: nat) -> bool {
    s.len() == 2 * width && forall|i: int| 0 <= i < s.len() ==> hex_val(s[i]) is Some
}

/// The bytes that hex text denotes, high digit first.
pub open spec fn hex_decode(s: Seq<char>) -> Seq<u8> {
    Seq::new(
        s.len() / 2,
        |i: int| (hex_val(s[2 * i])->0 * 16 + hex_val(s[2 * i + 1])->0) as u8,
    )
}

/// The lower-case hex digit of a value below 16.
pub open spec fn hex_digit(n: int) -> char {
    if n == 0 {
        '0'
    } else if n == 1 {
        '1'
    } else if n == 2 {
        '2'
    } else if n == 3 {
        '3'
    } else if n == 4 {
        '4'
    } else if n == 5 {
        '5'
    } else if n == 6 {
        '6'
    } else if n == 7 {
        '7'
    } else if n == 8 {
        '8'
    } else if n == 9 {
        '9'
    } else if n == 10 {
        'a'
    } else if n == 11 {
        'b'
    } else if n == 12 {
        'c'
    } else if n == 13 {
        'd'
    } else if n == 14 {
        'e'
    } else {
        'f'
    }
}

/// Lower-case hex text of some bytes, two digits per byte, high digit first.
pub open spec fn hex_of(b: Seq<u8>) -> Seq<char> {
    Seq::new(
        2 * b.len(),
        |k: int|
            if k % 2 == 0 {
                hex_digit(b[k / 2] as int / 16)
            } else {
                hex_digit(b[k / 2] as int % 16)
            },
    )
}

/// The MD5 digest of some bytes, as md-5 computes it.
pub uninterp spec fn md5_of(data: Seq<u8>) -> Seq<u8>;

/// Relies on md-5's `Md5::digest` (through digest's `Digest` trait): the 16-byte MD5 digest
/// of the whole input, a function of the input alone.
#[verifier::external_body]
fn md5_digest(data: &[u8]) -> (r: [u8; 16])
    ensures
        r@ == md5_of(data@),
{
    <md5::Md5 as digest::Digest>::digest(data).into()
}

proof fn lemma_hex_digit(n: int)
    requires
        0 <= n < 16,
    ensures
        hex_val(hex_digit(n)) == Some(n as u8),
{
}

/// Hex text decodes back to the bytes it was made from.
pub proof fn lemma_hex_round_trip(b: Seq<u8>)
    ensures
        is_hex_text(hex_of(b), b.len()),
        hex_decode(hex_of(b)) == b,
{
    let h = hex_of(b);
    assert forall|i: int| 0 <= i < h.len() implies hex_val(h[i]) is Some by {
        if i % 2 == 0 {
            lemma_hex_digit(b[i / 2] as int / 16);
        } else {
            lemma_hex_digit(b[i / 2] as int % 16);
        }
    }
    assert forall|i: int| 0 <= i < b.len() implies hex_decode(h)[i] == b[i] by {
        lemma_hex_digit(b[i] as int / 16);
        lemma_hex_digit(b[i] as int % 16);
        assert((2 * i) / 2 == i);
        assert((2 * i + 1) / 2 == i);
        assert((2 * i + 1) % 2 == 1);
        assert((2 * i) % 2 == 0);
        assert((b[i] as int / 16) * 16 + b[i] as int % 16 == b[i] as int);
    }
    assert(hex_decode(h) =~= b);
}

/// The value of a hex digit of either case, if `c` is one.
pub fn hex_char_to_int(c: char) -> (r: Option<u8>)
    ensures
        r == hex_val(c),
{
    if '0' <= c && c <= '9' {
        Some((c as u32 - '0' as u32) as u8)
    } else if 'a' <= c && c <= 'f' {
        Some((c as u32 - 'a' as u32 + 10) as u8)
    } else if 'A' <= c && c <= 'F' {
        Some((c as u32 - 'A' as u32 + 10) as u8)
    } else {
        None
    }
}

fn hex_digit_char(n: u8) -> (r: char)
    requires
        n < 16,
    ensures
        r == hex_digit(n as int),
{
    if n == 0 {
        '0'
    } else if n == 1 {
        '1'
    } else if n == 2 {
        '2'
    } else if n == 3 {
        '3'
    } else if n == 4 {
        '4'
    } else if n == 5 {
        '5'
    } else if n == 6 {
        '6'
    } else if n == 7 {
        '7'
    } else if n == 8 {
        '8'
    } else if n == 9 {
        '9'
    } else if n == 10 {
        'a'
    } else if n == 11 {
        'b'
    } else if n == 12 {
        'c'
    } else if n == 13 {
        'd'
    } else if n == 14 {
        'e'
    } else {
        'f'
    }
}

/// An MD5 digest: 16 raw bytes.
#[derive(Clone, Copy, Debug)]
pub struct HashMD5 {
    pub bytes: [u8; 16],
}

impl HashMD5 {
    /// Reads the hex text `s[lo..hi)` as a digest.
    pub fn parse_hex(s: &Vec<char>, lo: usize, hi: usize) -> (r: Option<HashMD5>)
        requires
            lo <= hi <= s@.len(),
        ensures
            r is Some <==> is_hex_text(s@.subrange(lo as int, hi as int), 16),
            r matches Some(h) ==> h.bytes@ == hex_decode(s@.subrange(lo as int, hi as int)),
    {
        let ghost t = s@.subrange(lo as int, hi as int);
        if hi - lo != 32 {
            return None;
        }
        let mut out: [u8; 16] = [0u8; 16];
        let mut i: usize = 0;
        while i < 16
            invariant
                t == s@.subrange(lo as int, hi as int),
                hi - lo == 32,
                lo <= hi <= s@.len(),
                0 <= i <= 16,
                forall|k: int| 0 <= k < 2 * i ==> hex_val(#[trigger] t[k]) is Some,
                forall|k: int| 0 <= k < i ==> out@[k] == hex_decode(t)[k],
            decreases 16 - i,
        {
            let hi_v = match hex_char_to_int(s[lo + 2 * i]) {
                Some(v) => v,
                None => {
                    assert(hex_val(t[2 * i as int]) is None);
                    return None;
                },
            };
            let lo_v = match hex_char_to_int(s[lo + 2 * i + 1]) {
                Some(v) => v,
                None => {
                    assert(hex_val(t[2 * i + 1]) is None);
                    return None;
                },
            };
            assert(t[2 * i as int] == s@[lo + 2 * i]);
            assert(t[2 * i + 1] == s@[lo + 2 * i + 1]);
            out[i] = hi_v * 16 + lo_v;
            i = i + 1;
        }
        assert(out@ =~= hex_decode(t));
        Some(HashMD5 { bytes: out })
    }

    /// The canonical lower-case hex text, as characters.
    pub fn hex_chars(&self) -> (r: Vec<char>)
        ensures
            r@ == hex_of(self.bytes@),
    {
        let mut out: Vec<char> = Vec::new();
        let mut i: usize = 0;
        while i < 16
            invariant
                0 <= i <= 16,
                out@.len() == 2 * i,
                forall|k: int| 0 <= k < 2 * i ==> out@[k] == hex_of(self.bytes@)[k],
            decreases 16 - i,
        {
            let b = self.bytes[i];
            out.push(hex_digit_char(b / 16));
            out.push(hex_digit_char(b % 16));
            i = i + 1;
        }
        assert(out@ =~= hex_of(self.bytes@));
        out
    }

    /// The MD5 digest of some content.
    pub fn from_content(data: &[u8]) -> (r: HashMD5)
        ensures
            r.bytes@ == md5_of(data@),
    {
        HashMD5 { bytes: md5_digest(data) }
    }
}

impl PartialEq for HashMD5 {
    fn eq(&self, other: &HashMD5) -> (r: bool) {
        self.equals(other)
    }
}

impl vstd::std_specs::cmp::PartialEqSpecImpl for HashMD5 {
    open spec fn obeys_eq_spec() -> bool {
        true
    }

    open spec fn eq_spec(&self, other: &HashMD5) -> bool {
        self.bytes@ == other.bytes@
    }
}

impl Eq for HashMD5 {}

impl HashValue for HashMD5 {
    open spec fn spec_bytes(&self) -> Seq<u8> {
        self.bytes@
    }

    open spec fn spec_width() -> nat {
        16
    }

    open spec fn spec_signature() -> Seq<char> {
        "MD5"@
    }

    open spec fn spec_hash_type() -> HashType {
        HashType::MD5
    }

    fn new(bytes: &[u8]) -> (r: Option<HashMD5>) {
        if bytes.len() != 16 {
            return None;
        }
        let mut out: [u8; 16] = [0u8; 16];
        let mut i: usize = 0;
        while i < 16
            invariant
                bytes@.len() == 16,
                0 <= i <= 16,
                forall|k: int| 0 <= k < i ==> out@[k] == bytes@[k],
            decreases 16 - i,
        {
            out[i] = bytes[i];
            i = i + 1;
        }
        assert(out@ =~= bytes@);
        Some(HashMD5 { bytes: out })
    }

    fn new_from_string(input: &str) -> (r: Option<HashMD5>) {
        let s = chars_of(input);
        assert(s@.subrange(0, s@.len() as int) =~= s@);
        HashMD5::parse_hex(&s, 0, s.len())
    }

    fn equals(&self, other: &HashMD5) -> (r: bool) {
        self.equals_bytes(other.bytes.as_slice())
    }

    fn compare(&self, other: &HashMD5) -> (r: core::cmp::Ordering) {
        assert(self.bytes@.skip(0) =~= self.bytes@);
        assert(other.bytes@.skip(0) =~= other.bytes@);
        let mut i: usize = 0;
        while i < 16
            invariant
                0 <= i <= 16,
                lex_cmp(self.bytes@, other.bytes@) == lex_cmp(
                    self.bytes@.skip(i as int),
                    other.bytes@.skip(i as int),
                ),
            decreases 16 - i,
        {
            let a = self.bytes[i];
            let b = other.bytes[i];
            if a < b {
                return core::cmp::Ordering::Less;
            }
            if a > b {
                return core::cmp::Ordering::Greater;
            }
            assert(self.bytes@.skip(i as int).drop_first() =~= self.bytes@.skip(i + 1));
            assert(other.bytes@.skip(i as int).drop_first() =~= other.bytes@.skip(i + 1));
            i = i + 1;
        }
        core::cmp::Ordering::Equal
    }

    fn equals_bytes(&self, bytes: &[u8]) -> (r: bool) {
        if bytes.len() != 16 {
            return false;
        }
        let mut i: usize = 0;
        while i < 16
            invariant
                bytes@.len() == 16,
                0 <= i <= 16,
                forall|k: int| 0 <= k < i ==> self.bytes@[k] == bytes@[k],
            decreases 16 - i,
        {
            if self.bytes[i] != bytes[i] {
                return false;
            }
            i = i + 1;
        }
        assert(self.bytes@ =~= bytes@);
        true
    }

    fn to_string(&self) -> (r: String) {
        let v = self.hex_chars();
        string_of(&v)
    }

    fn hash_type() -> (r: HashType) {
        HashType::MD5
    }

    fn parse_hash_type_string(input: &str) -> (r: bool) {
        str_eq(input, "MD5")
    }

    fn signature_to_string() -> (r: &'static str) {
        "MD5"
    }
}

} // verus!
