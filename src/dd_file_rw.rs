//! The manifest (directory digest) format, line by line:
//!
//! ```text
//! ; Directory digest generated at <time> containing <N> entries
//! ; Hash: MD5
//! ; Size: <bytes>, Last modified: <unix seconds>
//! <32 hex digits> *<path relative to the base directory>
//! ...
//! ```
//!
//! Reading and writing the file itself is up to the caller; this module turns lines into
//! records and records into lines.
use vstd::prelude::*;

use crate::file_metadata::{metadata_parse, metadata_text, parse_metadata, FileMetadata};
use crate::file_st::FileSt;
use crate::hash::{hex_decode, hex_of, is_hex_text, HashMD5};
use crate::hash_def::{hash_string_to_type, HashType, HashValue};
use crate::path_helper::{
    join_chars, join_spec, normalize_separators, normalize_spec, strip_base_chars, strip_base_spec,
};
use crate::text::{
    chars_of, dec, find_char, find_char_from, has_prefix, push_all, push_decimal, slice_chars,
    starts_with_at, string_of,
};

verus! {

/// Why a manifest could not be read or written. Line numbers count from 1.
#[derive(Clone, Copy, Debug, PartialEq, Eq, Structural)]
pub enum ManifestError {
    /// No `; Hash: ` line was found; carries the number of lines scanned.
    MissingHashHeader(usize),
    /// The `Hash:` line names another algorithm; carries its line.
    UnsupportedHashType(usize),
    /// A metadata comment was not followed by a well-formed entry line; carries the line.
    InvalidEntry(usize),
    /// A `; Size: ` comment whose metadata is malformed; carries its line.
    InvalidMetadata(usize),
    /// The manifest holds no entry; carries the number of lines scanned.
    NoEntries(usize),
    /// A record to write does not lie under the base directory; carries its index.
    PathOutsideBase(usize),
    /// A record to write has no hash; carries its index.
    MissingHash(usize),
}

/// The characters of each line.
pub open spec fn line_views(lines: Seq<String>) -> Seq<Seq<char>> {
    lines.map_values(|l: String| l@)
}

pub open spec fn is_header(l: Seq<char>) -> bool {
    has_prefix(l, "; Hash: "@)
}

/// The first `; Hash: ` line at or after `i`, or the number of lines if there is none.
pub open spec fn find_header_from(ls: Seq<Seq<char>>, i: int) -> int
    decreases ls.len() - i,
{
    if i < 0 || i >= ls.len() {
        ls.len() as int
    } else if is_header(ls[i]) {
        i
    } else {
        find_header_from(ls, i + 1)
    }
}

/// The metadata of a `; Size: ..., Last modified: ...` comment line.
pub open spec fn metadata_line(l: Seq<char>) -> Option<FileMetadata> {
    if has_prefix(l, "; "@) && metadata_parse(l.skip("; "@.len() as int)) is Ok {
        Some(metadata_parse(l.skip("; "@.len() as int))->Ok_0)
    } else {
        None
    }
}

/// A comment that announces metadata: it starts with `; Size: `.
pub open spec fn is_size_comment(l: Seq<char>) -> bool {
    has_prefix(l, "; Size: "@)
}

/// The path below `base` that an entry line names: after a `*` the separators are
/// rewritten to `sep`, without one the text is taken as it is.
pub open spec fn entry_path(rest: Seq<char>, base: Seq<char>, sep: char) -> Seq<char> {
    if rest.len() > 0 && rest[0] == '*' {
        join_spec(base, normalize_spec(rest.skip(1), sep), sep)
    } else {
        join_spec(base, rest, sep)
    }
}

/// The path and digest of an entry line `<hex> *<path>`: not a comment, split at the first
/// space, with 32 hex digits before it.
pub open spec fn data_line(l: Seq<char>, base: Seq<char>, sep: char) -> Option<
    (Seq<char>, Seq<u8>),
> {
    let p = find_char_from(l, ' ', 0);
    if l.len() > 0 && l[0] == ';' {
        None
    } else if p >= l.len() || !is_hex_text(l.subrange(0, p), 16) {
        None
    } else {
        Some((entry_path(l.skip(p + 1), base, sep), hex_decode(l.subrange(0, p))))
    }
}

/// An entry as read: full path, digest, metadata.
pub type Entry = (Seq<char>, Seq<u8>, FileMetadata);

/// The entries from line `i` on: a metadata comment followed by an entry line makes an
/// entry, a metadata comment followed by anything else is an error, a `; Size: ` comment
/// whose metadata is malformed is an error, other lines are skipped.
pub open spec fn parse_entries(ls: Seq<Seq<char>>, i: int, base: Seq<char>, sep: char) -> Result<
    Seq<Entry>,
    ManifestError,
>
    decreases ls.len() - i,
{
    if i < 0 || i >= ls.len() {
        Ok(Seq::empty())
    } else {
        match metadata_line(ls[i]) {
            None => if is_size_comment(ls[i]) {
                Err(ManifestError::InvalidMetadata((i + 1) as usize))
            } else {
                parse_entries(ls, i + 1, base, sep)
            },
            Some(m) => {
                if i + 1 >= ls.len() {
                    Err(ManifestError::InvalidEntry((i + 1) as usize))
                } else {
                    match data_line(ls[i + 1], base, sep) {
                        None => Err(ManifestError::InvalidEntry((i + 2) as usize)),
                        Some(d) => match parse_entries(ls, i + 2, base, sep) {
                            Ok(rest) => Ok(seq![(d.0, d.1, m)] + rest),
                            Err(e) => Err(e),
                        },
                    }
                }
            },
        }
    }
}

/// What reading a manifest's lines gives, with entry paths joined onto `base`.
pub open spec fn manifest_parse(ls: Seq<Seq<char>>, base: Seq<char>, sep: char) -> Result<
    Seq<Entry>,
    ManifestError,
> {
    let h = find_header_from(ls, 0);
    if h >= ls.len() {
        Err(ManifestError::MissingHashHeader(ls.len() as usize))
    } else if ls[h].skip("; Hash: "@.len() as int) != HashMD5::spec_signature() {
        Err(ManifestError::UnsupportedHashType((h + 1) as usize))
    } else {
        match parse_entries(ls, h + 1, base, sep) {
            Err(e) => Err(e),
            Ok(es) => if es.len() == 0 {
                Err(ManifestError::NoEntries(ls.len() as usize))
            } else {
                Ok(es)
            },
        }
    }
}

/// `v` holds the records of the entries `es`, in order, as read from a manifest.
pub open spec fn records_match(v: Seq<FileSt>, es: Seq<Entry>) -> bool {
    &&& v.len() == es.len()
    &&& forall|k: int|
        0 <= k < v.len() ==> {
            &&& (#[trigger] v[k]).path@ == es[k].0
            &&& v[k].loaded_hash is Some
            &&& v[k].loaded_hash->0.bytes@ == es[k].1
            &&& v[k].calculated_hash is None
            &&& v[k].metadata == es[k].2
        }
}

pub open spec fn prepend(
    acc: Seq<Entry>,
    r: Result<Seq<Entry>, ManifestError>,
) -> Result<Seq<Entry>, ManifestError> {
    match r {
        Ok(s) => Ok(acc + s),
        Err(e) => Err(e),
    }
}

proof fn lemma_find_header_bounds(ls: Seq<Seq<char>>, i: int)
    requires
        0 <= i <= ls.len(),
    ensures
        i <= find_header_from(ls, i) <= ls.len(),
        find_header_from(ls, i) < ls.len() ==> is_header(ls[find_header_from(ls, i)]),
    decreases ls.len() - i,
{
    if i < ls.len() && !is_header(ls[i]) {
        lemma_find_header_bounds(ls, i + 1);
    }
}

/// The index of the first `; Hash: ` line, or the number of lines.
fn find_header(lines: &Vec<String>) -> (h: usize)
    ensures
        h == find_header_from(line_views(lines@), 0),
        h <= lines@.len(),
        h < lines@.len() ==> is_header(line_views(lines@)[h as int]),
{
    let ghost ls = line_views(lines@);
    proof {
        lemma_find_header_bounds(ls, 0);
    }
    let tag = chars_of("; Hash: ");
    let n = lines.len();
    let mut h: usize = 0;
    while h < n
        invariant
            n == lines@.len(),
            ls == line_views(lines@),
            h <= n,
            tag@ == "; Hash: "@,
            find_header_from(ls, 0) == find_header_from(ls, h as int),
        decreases n - h,
    {
        let l = chars_of(lines[h].as_str());
        assert(l@ == ls[h as int]);
        assert(l@.subrange(0, l@.len() as int) =~= l@);
        if starts_with_at(&l, 0, l.len(), &tag) {
            return h;
        }
        h = h + 1;
    }
    h
}

fn read_metadata_line(l: &Vec<char>) -> (r: Option<FileMetadata>)
    ensures
        r == metadata_line(l@),
{
    let pre = chars_of("; ");
    let n = l.len();
    assert(l@.subrange(0, n as int) =~= l@);
    if !starts_with_at(l, 0, n, &pre) {
        return None;
    }
    assert(l@.skip(pre@.len() as int) =~= l@.subrange(pre@.len() as int, n as int));
    match parse_metadata(l, pre.len(), n) {
        Ok(m) => Some(m),
        Err(_) => None,
    }
}

fn read_data_line(l: &Vec<char>, base: &Vec<char>, sep: char) -> (r: Option<(Vec<char>, HashMD5)>)
    ensures
        r matches Some(d) ==> data_line(l@, base@, sep) == Some((d.0@, d.1.bytes@)),
        r is None ==> data_line(l@, base@, sep) is None,
{
    let n = l.len();
    if n > 0 && l[0] == ';' {
        return None;
    }
    let p = find_char(l, ' ', 0);
    proof {
        crate::text::lemma_find_char_bounds(l@, ' ', 0);
    }
    if p >= n {
        return None;
    }
    let h = match HashMD5::parse_hex(l, 0, p) {
        Some(h) => h,
        None => return None,
    };
    let ghost rest = l@.skip(p + 1);
    let rel = if p + 1 < n && l[p + 1] == '*' {
        assert(rest.skip(1) =~= l@.subrange(p + 2, n as int));
        normalize_separators(l, p + 2, n, sep)
    } else {
        assert(rest =~= l@.subrange(p + 1, n as int));
        slice_chars(l, p + 1, n)
    };
    let full = join_chars(base, &rel, sep);
    Some((full, h))
}

/// Reads the records of a manifest from its lines. Entry paths are joined onto
/// `base_path`; `sep` is the local path separator, to which the separators of entry paths
/// are rewritten.
pub fn read_dd(lines: &Vec<String>, base_path: &str, sep: char) -> (r: Result<
    Vec<FileSt>,
    ManifestError,
>)
    ensures
        match (r, manifest_parse(line_views(lines@), base_path@, sep)) {
            (Ok(v), Ok(es)) => records_match(v@, es),
            (Err(e), Err(f)) => e == f,
            _ => false,
        },
{
    let ghost ls = line_views(lines@);
    let base = chars_of(base_path);
    let tag = chars_of("; Hash: ");
    let n = lines.len();
    let h = find_header(lines);
    if h >= n {
        return Err(ManifestError::MissingHashHeader(n));
    }
    let hl = chars_of(lines[h].as_str());
    assert(hl@ == ls[h as int]);
    let tok = slice_chars(&hl, tag.len(), hl.len());
    let tok_s = string_of(&tok);
    assert(tok@ =~= ls[h as int].skip("; Hash: "@.len() as int));
    if !HashMD5::parse_hash_type_string(tok_s.as_str()) {
        return Err(ManifestError::UnsupportedHashType(h + 1));
    }
    let size_tag = chars_of("; Size: ");
    let mut files: Vec<FileSt> = Vec::new();
    let ghost mut acc: Seq<Entry> = Seq::empty();
    let mut i: usize = h + 1;
    while i < n
        invariant
            n == lines@.len(),
            ls == line_views(lines@),
            h < n,
            h + 1 <= i,
            h == find_header_from(ls, 0),
            base@ == base_path@,
            size_tag@ == "; Size: "@,
            ls[h as int].skip("; Hash: "@.len() as int) == HashMD5::spec_signature(),
            records_match(files@, acc),
            parse_entries(ls, h + 1, base@, sep) == prepend(acc, parse_entries(ls, i as int, base@, sep)),
        decreases n - i,
    {
        let l = chars_of(lines[i].as_str());
        assert(l@ == ls[i as int]);
        match read_metadata_line(&l) {
            None => {
                assert(l@.subrange(0, l@.len() as int) =~= l@);
                if starts_with_at(&l, 0, l.len(), &size_tag) {
                    assert(parse_entries(ls, i as int, base@, sep) == Err::<Seq<Entry>, ManifestError>(
                        ManifestError::InvalidMetadata((i + 1) as usize),
                    ));
                    assert(manifest_parse(ls, base_path@, sep) == Err::<Seq<Entry>, ManifestError>(
                        ManifestError::InvalidMetadata((i + 1) as usize),
                    ));
                    return Err(ManifestError::InvalidMetadata(i + 1));
                }
                i = i + 1;
            },
            Some(m) => {
                if i + 1 >= n {
                    assert(parse_entries(ls, i as int, base@, sep) == Err::<Seq<Entry>, ManifestError>(
                        ManifestError::InvalidEntry((i + 1) as usize),
                    ));
                    assert(manifest_parse(ls, base_path@, sep) == Err::<Seq<Entry>, ManifestError>(
                        ManifestError::InvalidEntry((i + 1) as usize),
                    ));
                    return Err(ManifestError::InvalidEntry(i + 1));
                }
                let dl = chars_of(lines[i + 1].as_str());
                assert(dl@ == ls[i + 1]);
                match read_data_line(&dl, &base, sep) {
                    None => {
                        assert(parse_entries(ls, i as int, base@, sep) == Err::<Seq<Entry>, ManifestError>(
                            ManifestError::InvalidEntry((i + 2) as usize),
                        ));
                        assert(manifest_parse(ls, base_path@, sep) == Err::<Seq<Entry>, ManifestError>(
                            ManifestError::InvalidEntry((i + 2) as usize),
                        ));
                        return Err(ManifestError::InvalidEntry(i + 2));
                    },
                    Some((path, hash)) => {
                        let ghost e: Entry = (path@, hash.bytes@, m);
                        let ps = string_of(&path);
                        files.push(FileSt::new(ps, Some(hash), m));
                        proof {
                            assert(prepend(acc, parse_entries(ls, i as int, base@, sep)) == prepend(
                                acc.push(e),
                                parse_entries(ls, i + 2, base@, sep),
                            )) by {
                                match parse_entries(ls, i + 2, base@, sep) {
                                    Ok(rest) => {
                                        assert(acc + (seq![e] + rest) =~= acc.push(e) + rest);
                                    },
                                    Err(_) => {},
                                }
                            }
                            acc = acc.push(e);
                        }
                        i = i + 2;
                    },
                }
            },
        }
    }
    assert(acc + Seq::<Entry>::empty() =~= acc);
    if files.len() == 0 {
        return Err(ManifestError::NoEntries(n));
    }
    Ok(files)
}

/// The algorithm that the first `; Hash: ` line of a manifest names, if there is one and the
/// name is known.
pub open spec fn header_hash_type(ls: Seq<Seq<char>>) -> Option<HashType> {
    let h = find_header_from(ls, 0);
    let tok = ls[h].skip("; Hash: "@.len() as int);
    if h < ls.len() && (tok == "md5"@ || tok == "MD5"@) {
        Some(HashType::MD5)
    } else {
        None
    }
}

/// The hash algorithm that a manifest's first `; Hash: ` line names, if it is known.
pub fn parse_dd_hash_type(lines: &Vec<String>) -> (r: Option<HashType>)
    ensures
        r == header_hash_type(line_views(lines@)),
{
    let ghost ls = line_views(lines@);
    let tag = chars_of("; Hash: ");
    let n = lines.len();
    let mut h: usize = 0;
    while h < n
        invariant
            n == lines@.len(),
            ls == line_views(lines@),
            h <= n,
            tag@ == "; Hash: "@,
            find_header_from(ls, 0) == find_header_from(ls, h as int),
        decreases n - h,
    {
        let l = chars_of(lines[h].as_str());
        assert(l@ == ls[h as int]);
        assert(l@.subrange(0, l@.len() as int) =~= l@);
        if starts_with_at(&l, 0, l.len(), &tag) {
            let tok = slice_chars(&l, tag.len(), l.len());
            assert(tok@ =~= ls[h as int].skip("; Hash: "@.len() as int));
            let tok_s = string_of(&tok);
            return hash_string_to_type(tok_s.as_str());
        }
        h = h + 1;
    }
    None
}

/// The first line: when the manifest was made and how many entries it has.
pub open spec fn title_text(generated_at: Seq<char>, n: nat) -> Seq<char> {
    "; Directory digest generated at "@ + generated_at + " containing "@ + dec(n) + " entries"@
}

/// The line that names the hash algorithm.
pub open spec fn header_text() -> Seq<char> {
    "; Hash: "@ + HashMD5::spec_signature()
}

/// The two lines of a record: its metadata comment and `<hex> *<path below base>`.
pub open spec fn entry_text(f: FileSt, rel: Seq<char>) -> Seq<Seq<char>> {
    seq!["; "@ + metadata_text(f.metadata), hex_of(f.calculated_hash->0.bytes@) + " *"@ + rel]
}

/// The lines of records `k..` in order; the first record that does not lie under `base`,
/// or that has no calculated hash, makes it an error carrying its position.
pub open spec fn render_entries(recs: Seq<FileSt>, k: int, base: Seq<char>, sep: char) -> Result<
    Seq<Seq<char>>,
    ManifestError,
>
    decreases recs.len() - k,
{
    if k < 0 || k >= recs.len() {
        Ok(Seq::empty())
    } else {
        match strip_base_spec(base, recs[k].path@, sep) {
            None => Err(ManifestError::PathOutsideBase(k as usize)),
            Some(rel) => if recs[k].calculated_hash is None {
                Err(ManifestError::MissingHash(k as usize))
            } else {
                match render_entries(recs, k + 1, base, sep) {
                    Ok(rest) => Ok(entry_text(recs[k], rel) + rest),
                    Err(e) => Err(e),
                }
            },
        }
    }
}

/// The lines of a manifest of `recs` below `base`, made at `generated_at`.
pub open spec fn manifest_render(
    recs: Seq<FileSt>,
    base: Seq<char>,
    generated_at: Seq<char>,
    sep: char,
) -> Result<Seq<Seq<char>>, ManifestError> {
    match render_entries(recs, 0, base, sep) {
        Err(e) => Err(e),
        Ok(body) => Ok(seq![title_text(generated_at, recs.len()), header_text()] + body),
    }
}

pub open spec fn prepend_lines(
    acc: Seq<Seq<char>>,
    r: Result<Seq<Seq<char>>, ManifestError>,
) -> Result<Seq<Seq<char>>, ManifestError> {
    match r {
        Ok(s) => Ok(acc + s),
        Err(e) => Err(e),
    }
}

/// The records at `order` in `files`, in that order.
pub open spec fn pick(files: Seq<FileSt>, order: Seq<usize>) -> Seq<FileSt> {
    order.map_values(|k: usize| files[k as int])
}

/// Writes the manifest lines of the records at `order` in `files`, with paths relative to
/// `base_path` and the title stamped with `generated_at`.
pub fn write_dd(
    files: &Vec<FileSt>,
    order: &Vec<usize>,
    base_path: &str,
    generated_at: &str,
    sep: char,
) -> (r: Result<Vec<String>, ManifestError>)
    requires
        forall|k: int| 0 <= k < order@.len() ==> #[trigger] order@[k] < files@.len(),
    ensures
        match (r, manifest_render(pick(files@, order@), base_path@, generated_at@, sep)) {
            (Ok(v), Ok(w)) => line_views(v@) == w,
            (Err(e), Err(f)) => e == f,
            _ => false,
        },
{
    let ghost recs = pick(files@, order@);
    let base = chars_of(base_path);
    let mut title = chars_of("; Directory digest generated at ");
    let ts = chars_of(generated_at);
    push_all(&mut title, &ts);
    let mid = chars_of(" containing ");
    push_all(&mut title, &mid);
    push_decimal(&mut title, order.len() as u64);
    let tail = chars_of(" entries");
    push_all(&mut title, &tail);
    let mut header = chars_of("; Hash: ");
    let sig = chars_of(HashMD5::signature_to_string());
    push_all(&mut header, &sig);
    let mut out: Vec<String> = Vec::new();
    out.push(string_of(&title));
    out.push(string_of(&header));
    let ghost first = seq![title_text(generated_at@, recs.len()), header_text()];
    assert(line_views(out@) =~= first);
    let comment = chars_of("; ");
    let star = chars_of(" *");
    let mut k: usize = 0;
    while k < order.len()
        invariant
            k <= order@.len(),
            recs == pick(files@, order@),
            forall|q: int| 0 <= q < order@.len() ==> #[trigger] order@[q] < files@.len(),
            base@ == base_path@,
            comment@ == "; "@,
            star@ == " *"@,
            line_views(out@).len() >= 2,
            line_views(out@).subrange(0, 2) == first,
            render_entries(recs, 0, base@, sep) == prepend_lines(
                line_views(out@).skip(2),
                render_entries(recs, k as int, base@, sep),
            ),
        decreases order@.len() - k,
    {
        let f = &files[order[k]];
        assert(*f == recs[k as int]);
        let p = chars_of(f.path.as_str());
        let rel = match strip_base_chars(&base, &p, sep) {
            Some(v) => v,
            None => {
                return Err(ManifestError::PathOutsideBase(k));
            },
        };
        let h = match &f.calculated_hash {
            Some(h) => h,
            None => {
                return Err(ManifestError::MissingHash(k));
            },
        };
        let mut meta = chars_of("; ");
        let mt = f.metadata.to_chars();
        push_all(&mut meta, &mt);
        let mut data = h.hex_chars();
        push_all(&mut data, &star);
        push_all(&mut data, &rel);
        let ghost before = line_views(out@);
        out.push(string_of(&meta));
        out.push(string_of(&data));
        proof {
            let et = entry_text(recs[k as int], rel@);
            assert(line_views(out@) =~= before + et);
            assert(line_views(out@).subrange(0, 2) =~= before.subrange(0, 2));
            assert(line_views(out@).skip(2) =~= before.skip(2) + et);
            match render_entries(recs, k + 1, base@, sep) {
                Ok(rest) => {
                    assert(before.skip(2) + (et + rest) =~= (before.skip(2) + et) + rest);
                },
                Err(_) => {},
            }
        }
        k = k + 1;
    }
    proof {
        assert(line_views(out@) =~= first + line_views(out@).skip(2));
        assert(line_views(out@).skip(2) + Seq::<Seq<char>>::empty() =~= line_views(out@).skip(2));
    }
    Ok(out)
}

/// The entries that reading back the records `k..` gives: path, calculated hash, metadata.
pub open spec fn entries_of(recs: Seq<FileSt>, k: int) -> Seq<Entry>
    decreases recs.len() - k,
{
    if k < 0 || k >= recs.len() {
        Seq::empty()
    } else {
        seq![(recs[k].path@, recs[k].calculated_hash->0.bytes@, recs[k].metadata)] + entries_of(
            recs,
            k + 1,
        )
    }
}

/// Every record carries a calculated hash and lies strictly below `base`, and its relative
/// path uses only the separator `sep`.
pub open spec fn writable(recs: Seq<FileSt>, base: Seq<char>, sep: char) -> bool {
    forall|k: int|
        0 <= k < recs.len() ==> {
            &&& (#[trigger] recs[k]).calculated_hash is Some
            &&& strip_base_spec(base, recs[k].path@, sep) is Some
            &&& strip_base_spec(base, recs[k].path@, sep)->0.len() > 0
            &&& !strip_base_spec(base, recs[k].path@, sep)->0.contains(
                crate::path_helper::foreign_sep(sep),
            )
        }
}

proof fn lemma_data_line_round_trip(f: FileSt, base: Seq<char>, sep: char)
    requires
        f.calculated_hash is Some,
        strip_base_spec(base, f.path@, sep) is Some,
        strip_base_spec(base, f.path@, sep)->0.len() > 0,
        !strip_base_spec(base, f.path@, sep)->0.contains(crate::path_helper::foreign_sep(sep)),
    ensures
        data_line(
            hex_of(f.calculated_hash->0.bytes@) + " *"@ + strip_base_spec(base, f.path@, sep)->0,
            base,
            sep,
        ) == Some((f.path@, f.calculated_hash->0.bytes@)),
{
    reveal_strlit(" *");
    let rel = strip_base_spec(base, f.path@, sep)->0;
    let h = f.calculated_hash->0.bytes@;
    let x = hex_of(h);
    crate::hash::lemma_hex_round_trip(h);
    let l = x + " *"@ + rel;
    assert(x.len() == 32);
    assert forall|k: int| 0 <= k < 32 implies l[k] != ' ' by {
        assert(l[k] == x[k]);
    }
    crate::text::lemma_find_char_skip(l, ' ', 0, 32);
    assert(l[32] == ' ');
    assert(find_char_from(l, ' ', 32) == 32);
    assert(l[0] == x[0]);
    assert(l.subrange(0, 32) =~= x);
    let rest = l.skip(33);
    assert(rest =~= seq!['*'] + rel);
    assert(rest.skip(1) =~= rel);
    assert(normalize_spec(rel, sep) =~= rel) by {
        assert forall|i: int| 0 <= i < rel.len() implies rel[i] != crate::path_helper::foreign_sep(
            sep,
        ) by {
            if rel[i] == crate::path_helper::foreign_sep(sep) {
                assert(rel.contains(rel[i]));
            }
        }
    }
    crate::path_helper::lemma_join_strip(base, f.path@, sep);
}

proof fn lemma_entries_round_trip(
    recs: Seq<FileSt>,
    k: int,
    base: Seq<char>,
    sep: char,
    ls: Seq<Seq<char>>,
    off: int,
)
    requires
        writable(recs, base, sep),
        0 <= k <= recs.len(),
        0 <= off <= ls.len(),
        render_entries(recs, k, base, sep) == Ok::<Seq<Seq<char>>, ManifestError>(
            ls.subrange(off, ls.len() as int),
        ),
    ensures
        parse_entries(ls, off, base, sep) == Ok::<Seq<Entry>, ManifestError>(entries_of(recs, k)),
    decreases recs.len() - k,
{
    if k >= recs.len() {
        assert(ls.subrange(off, ls.len() as int).len() == 0);
    } else {
        let f = recs[k];
        let rel = strip_base_spec(base, f.path@, sep)->0;
        let rest = render_entries(recs, k + 1, base, sep)->Ok_0;
        let et = entry_text(f, rel);
        assert(ls.subrange(off, ls.len() as int) == et + rest);
        assert(et.len() == 2);
        assert(ls.len() >= off + 2);
        assert(ls[off] == ls.subrange(off, ls.len() as int)[0]);
        assert(ls[off + 1] == ls.subrange(off, ls.len() as int)[1]);
        assert(ls[off] == et[0]);
        assert(ls[off + 1] == et[1]);
        assert forall|i: int| 0 <= i < rest.len() implies ls.subrange(off + 2, ls.len() as int)[i]
            == rest[i] by {
            assert(ls.subrange(off, ls.len() as int)[i + 2] == (et + rest)[i + 2]);
        }
        assert(ls.subrange(off + 2, ls.len() as int) =~= rest);
        lemma_entries_round_trip(recs, k + 1, base, sep, ls, off + 2);
        reveal_strlit("; ");
        let mt = metadata_text(f.metadata);
        crate::file_metadata::lemma_metadata_round_trip(f.metadata);
        assert(("; "@ + mt).subrange(0, 2) =~= "; "@);
        assert(("; "@ + mt).skip(2) =~= mt);
        assert(metadata_line(ls[off]) == Some(f.metadata));
        lemma_data_line_round_trip(f, base, sep);
        assert(data_line(ls[off + 1], base, sep) == Some((f.path@, f.calculated_hash->0.bytes@)));
    }
}

proof fn lemma_render_ok(recs: Seq<FileSt>, k: int, base: Seq<char>, sep: char)
    requires
        writable(recs, base, sep),
        0 <= k <= recs.len(),
    ensures
        render_entries(recs, k, base, sep) is Ok,
        render_entries(recs, k, base, sep)->Ok_0.len() == 2 * (recs.len() - k),
    decreases recs.len() - k,
{
    if k < recs.len() {
        assert(recs[k].calculated_hash is Some);
        lemma_render_ok(recs, k + 1, base, sep);
    }
}

proof fn lemma_entries_of(recs: Seq<FileSt>, k: int)
    requires
        0 <= k <= recs.len(),
    ensures
        entries_of(recs, k).len() == recs.len() - k,
        forall|j: int|
            0 <= j < recs.len() - k ==> #[trigger] entries_of(recs, k)[j] == (
                recs[k + j].path@,
                recs[k + j].calculated_hash->0.bytes@,
                recs[k + j].metadata,
            ),
    decreases recs.len() - k,
{
    if k < recs.len() {
        lemma_entries_of(recs, k + 1);
        assert forall|j: int| 0 <= j < recs.len() - k implies #[trigger] entries_of(recs, k)[j] == (
            recs[k + j].path@,
            recs[k + j].calculated_hash->0.bytes@,
            recs[k + j].metadata,
        ) by {
            if j > 0 {
                assert(entries_of(recs, k)[j] == entries_of(recs, k + 1)[j - 1]);
            }
        }
    }
}

/// Writing a manifest of records and reading its lines back over the same base gives, for
/// each record in order, the same path, hash, size and modification seconds. The records
/// must carry a hash and lie below the base, with relative paths in the local separator.
pub proof fn lemma_manifest_round_trip(
    recs: Seq<FileSt>,
    base: Seq<char>,
    generated_at: Seq<char>,
    sep: char,
)
    requires
        recs.len() > 0,
        writable(recs, base, sep),
    ensures
        manifest_render(recs, base, generated_at, sep) is Ok,
        manifest_parse(manifest_render(recs, base, generated_at, sep)->Ok_0, base, sep) is Ok,
        ({
            let es = manifest_parse(manifest_render(recs, base, generated_at, sep)->Ok_0, base, sep)->Ok_0;
            &&& es.len() == recs.len()
            &&& forall|k: int|
                0 <= k < recs.len() ==> {
                    &&& (#[trigger] es[k]).0 == recs[k].path@
                    &&& es[k].1 == recs[k].calculated_hash->0.bytes@
                    &&& es[k].2.size == recs[k].metadata.size
                    &&& es[k].2.last_modified == recs[k].metadata.last_modified
                }
        }),
{
    reveal_strlit("; Directory digest generated at ");
    reveal_strlit("; Hash: ");
    reveal_strlit("MD5");
    lemma_render_ok(recs, 0, base, sep);
    let body = render_entries(recs, 0, base, sep)->Ok_0;
    let title = title_text(generated_at, recs.len());
    let ls = seq![title, header_text()] + body;
    assert(manifest_render(recs, base, generated_at, sep) == Ok::<Seq<Seq<char>>, ManifestError>(ls));
    assert(!is_header(ls[0])) by {
        assert(ls[0] == title);
        assert(title[2] == 'D');
        if is_header(title) {
            assert(title.subrange(0, 8)[2] == "; Hash: "@[2]);
        }
    }
    assert(is_header(ls[1])) by {
        assert(ls[1] == header_text());
        assert(header_text().subrange(0, 8) =~= "; Hash: "@);
    }
    assert(ls.len() >= 2);
    assert(find_header_from(ls, 1) == 1);
    assert(find_header_from(ls, 0) == 1);
    assert(ls[1].skip(8) =~= "MD5"@);
    assert(ls.subrange(2, ls.len() as int) =~= body);
    lemma_entries_round_trip(recs, 0, base, sep, ls, 2);
    lemma_entries_of(recs, 0);
}

} // verus!
