use sfisum::console_text_formatter::{colorize_txt, TextColor};
use sfisum::file_metadata::{FileMetadata, MetadataError, Timestamp};
use sfisum::hash::{hex_char_to_int, HashMD5};
use sfisum::hash_def::{
    hash_string_to_type, hash_type_suffix_parse, hash_type_to_suffix, HashType, HashValue,
};
use sfisum::path_helper::{join_paths, remove_base_path};
use std::cmp::Ordering;

#[test]
fn md5_of_hello() {
    let h = HashMD5::from_content(b"hello");
    assert_eq!(HashValue::to_string(&h), "5d41402abc4b2a76b9719d911017c592");
    let w = HashMD5::from_content(b"world");
    assert_eq!(HashValue::to_string(&w), "7d793037a0760186574b0282f2f435e7");
}

#[test]
fn md5_of_empty_input() {
    let h = HashMD5::from_content(b"");
    assert_eq!(HashValue::to_string(&h), "d41d8cd98f00b204e9800998ecf8427e");
}

#[test]
fn hex_text_round_trip() {
    let h = HashMD5::new_from_string("5d41402abc4b2a76b9719d911017c592").unwrap();
    assert_eq!(HashValue::to_string(&h), "5d41402abc4b2a76b9719d911017c592");
    assert_eq!(h.bytes[0], 0x5d);
    assert_eq!(h.bytes[15], 0x92);
}

#[test]
fn hex_text_upper_case_is_read() {
    let h = HashMD5::new_from_string("5D41402ABC4B2A76B9719D911017C592").unwrap();
    assert_eq!(HashValue::to_string(&h), "5d41402abc4b2a76b9719d911017c592");
}

#[test]
fn hex_text_rejects_bad_length_and_characters() {
    assert!(HashMD5::new_from_string("5d41402abc4b2a76b9719d911017c59").is_none());
    assert!(HashMD5::new_from_string("5d41402abc4b2a76b9719d911017c5922").is_none());
    assert!(HashMD5::new_from_string("5d41402abc4b2a76b9719d911017c59g").is_none());
    assert!(HashMD5::new_from_string("").is_none());
}

#[test]
fn digest_from_raw_bytes() {
    let bytes = [7u8; 16];
    let h = HashMD5::new(&bytes).unwrap();
    assert!(h.equals_bytes(&bytes));
    assert!(!h.equals_bytes(&[7u8; 15]));
    assert!(HashMD5::new(&[7u8; 15]).is_none());
    assert!(HashMD5::new(&[7u8; 17]).is_none());
    let other = HashMD5::new(&[8u8; 16]).unwrap();
    assert!(!h.equals(&other));
    assert!(h == HashMD5::new(&bytes).unwrap());
}

#[test]
fn hex_digits() {
    assert_eq!(hex_char_to_int('0'), Some(0));
    assert_eq!(hex_char_to_int('9'), Some(9));
    assert_eq!(hex_char_to_int('a'), Some(10));
    assert_eq!(hex_char_to_int('F'), Some(15));
    assert_eq!(hex_char_to_int('g'), None);
}

#[test]
fn hash_type_names() {
    assert_eq!(hash_type_suffix_parse("ddmd5"), Some(HashType::MD5));
    assert_eq!(hash_type_suffix_parse("md5"), None);
    assert_eq!(hash_type_to_suffix(&HashType::MD5), "ddmd5");
    assert_eq!(hash_string_to_type("md5"), Some(HashType::MD5));
    assert_eq!(hash_string_to_type("MD5"), Some(HashType::MD5));
    assert_eq!(hash_string_to_type("sha1"), None);
    assert!(HashMD5::parse_hash_type_string("MD5"));
    assert!(!HashMD5::parse_hash_type_string("md5"));
    assert_eq!(HashMD5::signature_to_string(), "MD5");
    assert_eq!(HashMD5::hash_type(), HashType::MD5);
}

#[test]
fn metadata_text_round_trip() {
    let m = FileMetadata::new(Timestamp { secs: 1733589895, nanos: 999 }, 2999880);
    assert_eq!(m.to_string(), "Size: 2999880, Last modified: 1733589895");
    assert_eq!(FileMetadata::new_from_string(&m.to_string()), Ok(m));
}

#[test]
fn metadata_largest_values() {
    let m = FileMetadata::new_from_string(
        "Size: 18446744073709551615, Last modified: 18446744073709551615",
    )
    .unwrap();
    assert_eq!(m.size, u64::MAX);
    assert_eq!(m.last_modified, u64::MAX);
    assert_eq!(
        FileMetadata::new_from_string("Size: 18446744073709551616, Last modified: 1"),
        Err(MetadataError::InvalidSize)
    );
}

#[test]
fn metadata_errors() {
    assert_eq!(FileMetadata::new_from_string("Size: 12"), Err(MetadataError::InvalidFormat));
    assert_eq!(
        FileMetadata::new_from_string("Size: 1, Last modified: 2, x"),
        Err(MetadataError::InvalidFormat)
    );
    assert_eq!(
        FileMetadata::new_from_string("Size: x, Last modified: 1"),
        Err(MetadataError::InvalidSize)
    );
    assert_eq!(
        FileMetadata::new_from_string("Bytes: 1, Last modified: 1"),
        Err(MetadataError::InvalidSize)
    );
    assert_eq!(
        FileMetadata::new_from_string("Size: 1, Last modified: -1"),
        Err(MetadataError::InvalidTimestamp)
    );
    assert_eq!(
        FileMetadata::new_from_string("Size: 1, Modified: 1"),
        Err(MetadataError::InvalidTimestamp)
    );
    assert_eq!(
        FileMetadata::new_from_string("Size: +7, Last modified: 3"),
        Ok(FileMetadata { size: 7, last_modified: 3 })
    );
    assert_eq!(MetadataError::InvalidSize.message(), "Invalid size format");
}

#[test]
fn subsecond_difference_is_not_a_change() {
    let a = FileMetadata::new(Timestamp { secs: 100, nanos: 1 }, 5);
    let b = FileMetadata::new(Timestamp { secs: 100, nanos: 999_999_999 }, 5);
    assert!(!a.differs(&b));
    let c = FileMetadata::new(Timestamp { secs: 101, nanos: 0 }, 5);
    assert!(a.differs(&c));
    let d = FileMetadata::new(Timestamp { secs: 100, nanos: 0 }, 6);
    assert!(a.differs(&d));
}

#[test]
fn joining_and_stripping_paths() {
    assert_eq!(join_paths("/base", "a.txt", '/'), "/base/a.txt");
    assert_eq!(join_paths("/base/", "a.txt", '/'), "/base/a.txt");
    assert_eq!(join_paths("", "a.txt", '/'), "a.txt");
    assert_eq!(remove_base_path("/base", "/base/a/b.txt", '/'), Some("a/b.txt".to_string()));
    assert_eq!(remove_base_path("/base/", "/base/a.txt", '/'), Some("a.txt".to_string()));
    assert_eq!(remove_base_path("/base", "/basex/a.txt", '/'), None);
    assert_eq!(remove_base_path("/base", "/other/a.txt", '/'), None);
    assert_eq!(remove_base_path("/base", "/base", '/'), Some(String::new()));
}

#[test]
fn colouring() {
    assert_eq!(colorize_txt(TextColor::Red, "x"), "\x1b[31mx\x1b[0m");
    assert_eq!(colorize_txt(TextColor::BrightMagenta, ""), "\x1b[95m\x1b[0m");
}

#[test]
fn digests_order_by_bytes() {
    let mut low = [0u8; 16];
    let mut high = [0u8; 16];
    low[15] = 1;
    high[0] = 1;
    let a = HashMD5::new(&low).unwrap();
    let b = HashMD5::new(&high).unwrap();
    assert_eq!(a.compare(&b), Ordering::Less);
    assert_eq!(b.compare(&a), Ordering::Greater);
    assert_eq!(a.compare(&a), Ordering::Equal);
}
