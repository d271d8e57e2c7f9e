use sfisum::dd_file_rw::{parse_dd_hash_type, read_dd, write_dd, ManifestError};
use sfisum::directory_walker::{DirectoryWalker, WalkError};
use sfisum::file_metadata::{FileMetadata, Timestamp};
use sfisum::file_st::FileSt;
use sfisum::hash::HashMD5;
use sfisum::hash_def::{HashType, HashValue};

fn lines(text: &[&str]) -> Vec<String> {
    text.iter().map(|l| l.to_string()).collect()
}

fn meta(size: u64, secs: u64) -> FileMetadata {
    FileMetadata::new(Timestamp { secs, nanos: 0 }, size)
}

fn hashed(path: &str, content: &[u8], size: u64, secs: u64) -> FileSt {
    let mut f = FileSt::new(path.to_string(), None, meta(size, secs));
    assert!(f.calc_hash(Some(HashMD5::from_content(content))));
    f
}

const HELLO: &str = "5d41402abc4b2a76b9719d911017c592";

#[test]
fn read_manifest_entries() {
    let text = lines(&[
        "; Directory digest generated at 2024-01-01T00:00:00+00:00 containing 2 entries",
        "; Hash: MD5",
        "; Size: 5, Last modified: 1700000000",
        "5d41402abc4b2a76b9719d911017c592 *a.txt",
        "; a note",
        "; Size: 5, Last modified: 1700000001",
        "7d793037a0760186574b0282f2f435e7 *sub\\b.txt",
    ]);
    let files = read_dd(&text, "/base", '/').unwrap();
    assert_eq!(files.len(), 2);
    assert_eq!(files[0].path, "/base/a.txt");
    assert_eq!(HashValue::to_string(&files[0].loaded_hash.unwrap()), HELLO);
    assert!(files[0].calculated_hash.is_none());
    assert_eq!(files[0].metadata, meta(5, 1700000000));
    assert_eq!(files[1].path, "/base/sub/b.txt");
    assert_eq!(files[1].metadata.last_modified, 1700000001);
}

#[test]
fn read_manifest_path_without_star_is_kept() {
    let text = lines(&["; Hash: MD5", "; Size: 5, Last modified: 1", "5d41402abc4b2a76b9719d911017c592 x\\y"]);
    let files = read_dd(&text, "/base", '/').unwrap();
    assert_eq!(files[0].path, "/base/x\\y");
}

#[test]
fn read_manifest_windows_separators() {
    let text = lines(&["; Hash: MD5", "; Size: 5, Last modified: 1", "5d41402abc4b2a76b9719d911017c592 *x/y"]);
    let files = read_dd(&text, "C:\\base", '\\').unwrap();
    assert_eq!(files[0].path, "C:\\base\\x\\y");
}

#[test]
fn read_manifest_missing_header() {
    let text = lines(&["; Size: 5, Last modified: 1", "5d41402abc4b2a76b9719d911017c592 *a"]);
    assert_eq!(read_dd(&text, "/b", '/').unwrap_err(), ManifestError::MissingHashHeader(2));
    assert_eq!(read_dd(&Vec::new(), "/b", '/').unwrap_err(), ManifestError::MissingHashHeader(0));
}

#[test]
fn read_manifest_unsupported_hash_type() {
    let text = lines(&["; title", "; Hash: SHA1", "; Size: 5, Last modified: 1"]);
    assert_eq!(read_dd(&text, "/b", '/').unwrap_err(), ManifestError::UnsupportedHashType(2));
}

#[test]
fn read_manifest_bad_entry_line() {
    let text = lines(&["; Hash: MD5", "; Size: 5, Last modified: 1", "; not an entry"]);
    assert_eq!(read_dd(&text, "/b", '/').unwrap_err(), ManifestError::InvalidEntry(3));
    let text = lines(&["; Hash: MD5", "; Size: 5, Last modified: 1", "nospace"]);
    assert_eq!(read_dd(&text, "/b", '/').unwrap_err(), ManifestError::InvalidEntry(3));
    let text = lines(&["; Hash: MD5", "; Size: 5, Last modified: 1", "abc *a"]);
    assert_eq!(read_dd(&text, "/b", '/').unwrap_err(), ManifestError::InvalidEntry(3));
    let text = lines(&["; Hash: MD5", "; Size: 5, Last modified: 1", ""]);
    assert_eq!(read_dd(&text, "/b", '/').unwrap_err(), ManifestError::InvalidEntry(3));
    let text = lines(&["; Hash: MD5", "x", "; Size: 5, Last modified: 1"]);
    assert_eq!(read_dd(&text, "/b", '/').unwrap_err(), ManifestError::InvalidEntry(3));
}

#[test]
fn read_manifest_without_entries() {
    let text = lines(&["; title", "; Hash: MD5", "; just a comment", "stray line"]);
    assert_eq!(read_dd(&text, "/b", '/').unwrap_err(), ManifestError::NoEntries(4));
}

#[test]
fn manifest_hash_type_detection() {
    assert_eq!(parse_dd_hash_type(&lines(&["; x", "; Hash: MD5"])), Some(HashType::MD5));
    assert_eq!(parse_dd_hash_type(&lines(&["; Hash: md5"])), Some(HashType::MD5));
    assert_eq!(parse_dd_hash_type(&lines(&["; Hash: SHA1"])), None);
    assert_eq!(parse_dd_hash_type(&lines(&["no header"])), None);
}

#[test]
fn write_manifest_lines() {
    let files = vec![hashed("/base/a.txt", b"hello", 5, 1700000000)];
    let out = write_dd(&files, &vec![0], "/base", "NOW", '/').unwrap();
    assert_eq!(
        out,
        lines(&[
            "; Directory digest generated at NOW containing 1 entries",
            "; Hash: MD5",
            "; Size: 5, Last modified: 1700000000",
            "5d41402abc4b2a76b9719d911017c592 *a.txt",
        ])
    );
}

#[test]
fn write_manifest_errors() {
    let unhashed = vec![FileSt::new("/base/a".to_string(), None, meta(1, 1))];
    assert_eq!(write_dd(&unhashed, &vec![0], "/base", "t", '/').unwrap_err(), ManifestError::MissingHash(0));
    let outside = vec![hashed("/base/a", b"x", 1, 1), hashed("/elsewhere/b", b"y", 1, 1)];
    assert_eq!(
        write_dd(&outside, &vec![0, 1], "/base", "t", '/').unwrap_err(),
        ManifestError::PathOutsideBase(1)
    );
}

#[test]
fn manifest_round_trip() {
    let files = vec![
        hashed("/base/a.txt", b"hello", 5, 1700000000),
        hashed("/base/dir/b.txt", b"world", 5, 42),
        hashed("/base/empty", b"", 0, 0),
    ];
    let out = write_dd(&files, &vec![0, 1, 2], "/base", "2024-01-01T00:00:00+00:00", '/').unwrap();
    let back = read_dd(&out, "/base", '/').unwrap();
    assert_eq!(back.len(), 3);
    for (a, b) in files.iter().zip(back.iter()) {
        assert_eq!(a.path, b.path);
        assert!(a.calculated_hash.unwrap() == b.loaded_hash.unwrap());
        assert_eq!(a.metadata, b.metadata);
    }
}

#[test]
fn walker_decisions() {
    let mut w = DirectoryWalker::new("/base".to_string());
    assert_eq!(w.walk(Ok(Vec::new())), Err(WalkError::NoFiles));
    assert_eq!(w.walk(Err("denied".to_string())), Err(WalkError::Io("denied".to_string())));
    assert_eq!(w.walk(Ok(vec![FileSt::new("/base/a".to_string(), None, meta(1, 1))])), Ok(()));
    assert_eq!(w.into_files().len(), 1);
}

#[test]
fn read_manifest_malformed_metadata() {
    let text = lines(&[
        "; Hash: MD5",
        "; Size: abc, Last modified: 5",
        "; Size: 5, Last modified: 1",
        "5d41402abc4b2a76b9719d911017c592 *a",
    ]);
    assert_eq!(read_dd(&text, "/b", '/').unwrap_err(), ManifestError::InvalidMetadata(2));
    let text = lines(&["; Hash: MD5", "; a note", "; Size: 5, Last modified: 1", "5d41402abc4b2a76b9719d911017c592 *a"]);
    assert_eq!(read_dd(&text, "/b", '/').unwrap().len(), 1);
}
