//! Reconciliation of a fresh directory snapshot (primary) against a manifest (secondary):
//! partition by path, detect metadata changes, classify changed pairs by content, and
//! cross-check the unmatched files of both sides by content hash.
use vstd::prelude::*;

use crate::file_metadata::is_dirty;
use crate::file_st::FileSt;
use crate::hash::{hex_of, HashMD5};
use crate::hash_def::HashValue;
use vstd::hash_map::StringHashMap;

verus! {

broadcast use vstd::seq_lib::lemma_seq_contains_after_push;

/// Record `j` is the one that a path-to-index map built over `files` keeps for its path:
/// the last record with that path.
pub open spec fn is_last_with_path(files: Seq<FileSt>, j: int) -> bool {
    0 <= j < files.len() && forall|k: int|
        j < k < files.len() ==> #[trigger] files[k].path@ != files[j].path@
}

pub open spec fn has_path(files: Seq<FileSt>, p: Seq<char>) -> bool {
    exists|k: int| 0 <= k < files.len() && #[trigger] files[k].path@ == p
}

pub open spec fn distinct_paths(files: Seq<FileSt>) -> bool {
    forall|a: int, b: int|
        0 <= a < b < files.len() ==> #[trigger] files[a].path@ != #[trigger] files[b].path@
}

pub open spec fn strictly_increasing(s: Seq<usize>) -> bool {
    forall|a: int, b: int| 0 <= a < b < s.len() ==> s[a] < s[b]
}

/// The records of two snapshots split by path: indices only in the primary, only in the
/// secondary, and pairs `(primary, secondary)` that share a path.
pub struct PathPartition {
    pub only_primary: Vec<usize>,
    pub only_secondary: Vec<usize>,
    pub in_both: Vec<(usize, usize)>,
}

/// `r` is the partition of `p` and `s` by path, one entry per distinct path of each side.
pub open spec fn is_partition(p: Seq<FileSt>, s: Seq<FileSt>, r: PathPartition) -> bool {
    &&& strictly_increasing(r.only_primary@)
    &&& forall|i: usize|
        r.only_primary@.contains(i) <==> (is_last_with_path(p, i as int) && !has_path(
            s,
            p[i as int].path@,
        ))
    &&& strictly_increasing(r.only_secondary@)
    &&& forall|j: usize|
        r.only_secondary@.contains(j) <==> (is_last_with_path(s, j as int) && !has_path(
            p,
            s[j as int].path@,
        ))
    &&& forall|a: int, b: int|
        0 <= a < b < r.in_both@.len() ==> r.in_both@[a].0 < r.in_both@[b].0
    &&& forall|k: int|
        0 <= k < r.in_both@.len() ==> {
            let (i, j) = #[trigger] r.in_both@[k];
            &&& is_last_with_path(p, i as int)
            &&& is_last_with_path(s, j as int)
            &&& p[i as int].path@ == s[j as int].path@
        }
    &&& forall|i: int|
        #![trigger is_last_with_path(p, i)]
        is_last_with_path(p, i) && has_path(s, p[i].path@) ==> exists|k: int|
            0 <= k < r.in_both@.len() && #[trigger] r.in_both@[k].0 == i
}

/// A map from each path of `files` to the last record with that path, as a path-to-index
/// map built by inserting every record in order holds it.
pub fn path_index(files: &Vec<FileSt>) -> (m: StringHashMap<usize>)
    ensures
        forall|key: Seq<char>| #[trigger] m@.contains_key(key) <==> has_path(files@, key),
        forall|key: Seq<char>|
            #[trigger] m@.contains_key(key) ==> is_last_with_path(files@, m@[key] as int)
                && files@[m@[key] as int].path@ == key,
{
    let mut m: StringHashMap<usize> = StringHashMap::new();
    let mut i: usize = 0;
    while i < files.len()
        invariant
            i <= files@.len(),
            forall|key: Seq<char>|
                #[trigger] m@.contains_key(key) <==> exists|k: int|
                    0 <= k < i && #[trigger] files@[k].path@ == key,
            forall|key: Seq<char>|
                #[trigger] m@.contains_key(key) ==> m@[key] < i && files@[m@[key] as int].path@
                    == key && forall|k: int|
                    m@[key] < k < i ==> #[trigger] files@[k].path@ != key,
        decreases files@.len() - i,
    {
        let ghost before = m@;
        m.insert(files[i].path.clone(), i);
        assert forall|key: Seq<char>|
            #[trigger] m@.contains_key(key) <==> exists|k: int|
                0 <= k < i + 1 && #[trigger] files@[k].path@ == key by {
            if key == files@[i as int].path@ {
                assert(files@[i as int].path@ == key);
            } else if before.contains_key(key) {
                let k = choose|k: int| 0 <= k < i && #[trigger] files@[k].path@ == key;
                assert(files@[k].path@ == key);
            } else if exists|k: int| 0 <= k < i + 1 && #[trigger] files@[k].path@ == key {
                let k = choose|k: int| 0 <= k < i + 1 && #[trigger] files@[k].path@ == key;
                assert(k < i);
            }
        }
        i = i + 1;
    }
    assert forall|key: Seq<char>| #[trigger] m@.contains_key(key) <==> has_path(files@, key) by {
        if has_path(files@, key) {
            let k = choose|k: int| 0 <= k < files@.len() && #[trigger] files@[k].path@ == key;
            assert(files@[k].path@ == key);
        }
    }
    m
}

proof fn lemma_last_unique(files: Seq<FileSt>, i: int, j: int)
    requires
        is_last_with_path(files, i),
        is_last_with_path(files, j),
        files[i].path@ == files[j].path@,
    ensures
        i == j,
{
    if i < j {
        assert(files[j].path@ != files[i].path@);
    } else if j < i {
        assert(files[i].path@ != files[j].path@);
    }
}

/// Splits the records of `primary` and `secondary` by path membership, through a
/// path-to-index map of each side.
pub fn partition_by_path(primary: &Vec<FileSt>, secondary: &Vec<FileSt>) -> (r: PathPartition)
    ensures
        is_partition(primary@, secondary@, r),
{
    let pmap = path_index(primary);
    let smap = path_index(secondary);
    let mut only_primary: Vec<usize> = Vec::new();
    let mut in_both: Vec<(usize, usize)> = Vec::new();
    let mut i: usize = 0;
    while i < primary.len()
        invariant
            i <= primary@.len(),
            forall|key: Seq<char>| #[trigger] pmap@.contains_key(key) <==> has_path(primary@, key),
            forall|key: Seq<char>|
                #[trigger] pmap@.contains_key(key) ==> is_last_with_path(primary@, pmap@[key] as int)
                    && primary@[pmap@[key] as int].path@ == key,
            forall|key: Seq<char>|
                #[trigger] smap@.contains_key(key) <==> has_path(secondary@, key),
            forall|key: Seq<char>|
                #[trigger] smap@.contains_key(key) ==> is_last_with_path(
                    secondary@,
                    smap@[key] as int,
                ) && secondary@[smap@[key] as int].path@ == key,
            strictly_increasing(only_primary@),
            forall|k: int| 0 <= k < only_primary@.len() ==> only_primary@[k] < i,
            forall|x: usize|
                x < i ==> (only_primary@.contains(x) <==> (is_last_with_path(
                    primary@,
                    x as int,
                ) && !has_path(secondary@, primary@[x as int].path@))),
            forall|x: usize| #[trigger] only_primary@.contains(x) ==> x < i,
            forall|a: int, b: int| 0 <= a < b < in_both@.len() ==> in_both@[a].0 < in_both@[b].0,
            forall|k: int| 0 <= k < in_both@.len() ==> (#[trigger] in_both@[k]).0 < i,
            forall|k: int|
                0 <= k < in_both@.len() ==> {
                    let (a, b) = #[trigger] in_both@[k];
                    &&& is_last_with_path(primary@, a as int)
                    &&& is_last_with_path(secondary@, b as int)
                    &&& primary@[a as int].path@ == secondary@[b as int].path@
                },
            forall|x: int|
                #![trigger is_last_with_path(primary@, x)]
                0 <= x < i && is_last_with_path(primary@, x) && has_path(
                    secondary@,
                    primary@[x].path@,
                ) ==> exists|k: int| 0 <= k < in_both@.len() && #[trigger] in_both@[k].0 == x,
        decreases primary@.len() - i,
    {
        let ghost key = primary@[i as int].path@;
        assert(has_path(primary@, key)) by {
            assert(primary@[i as int].path@ == key);
        }
        let last = match pmap.get(primary[i].path.as_str()) {
            Some(j) => *j == i,
            None => false,
        };
        assert(last == is_last_with_path(primary@, i as int)) by {
            if is_last_with_path(primary@, i as int) {
                lemma_last_unique(primary@, pmap@[key] as int, i as int);
            }
        }
        if last {
            match smap.get(primary[i].path.as_str()) {
                Some(j) => {
                    let j = *j;
                    let ghost old_both = in_both@;
                    in_both.push((i, j));
                    assert forall|x: int|
                        #![trigger is_last_with_path(primary@, x)]
                        0 <= x < i + 1 && is_last_with_path(primary@, x) && has_path(
                            secondary@,
                            primary@[x].path@,
                        ) implies exists|k: int|
                        0 <= k < in_both@.len() && #[trigger] in_both@[k].0 == x by {
                        if x < i {
                            let k = choose|k: int|
                                0 <= k < old_both.len() && #[trigger] old_both[k].0 == x;
                            assert(in_both@[k] == old_both[k]);
                        } else {
                            assert(in_both@[old_both.len() as int].0 == x);
                        }
                    }
                },
                None => {
                    only_primary.push(i);
                },
            }
        }
        i = i + 1;
    }
    let mut only_secondary: Vec<usize> = Vec::new();
    let mut j: usize = 0;
    while j < secondary.len()
        invariant
            j <= secondary@.len(),
            forall|key: Seq<char>| #[trigger] pmap@.contains_key(key) <==> has_path(primary@, key),
            forall|key: Seq<char>|
                #[trigger] smap@.contains_key(key) <==> has_path(secondary@, key),
            forall|key: Seq<char>|
                #[trigger] smap@.contains_key(key) ==> is_last_with_path(
                    secondary@,
                    smap@[key] as int,
                ) && secondary@[smap@[key] as int].path@ == key,
            strictly_increasing(only_secondary@),
            forall|k: int| 0 <= k < only_secondary@.len() ==> only_secondary@[k] < j,
            forall|x: usize|
                x < j ==> (only_secondary@.contains(x) <==> (is_last_with_path(
                    secondary@,
                    x as int,
                ) && !has_path(primary@, secondary@[x as int].path@))),
            forall|x: usize| #[trigger] only_secondary@.contains(x) ==> x < j,
        decreases secondary@.len() - j,
    {
        let ghost key = secondary@[j as int].path@;
        assert(has_path(secondary@, key)) by {
            assert(secondary@[j as int].path@ == key);
        }
        let last = match smap.get(secondary[j].path.as_str()) {
            Some(k) => *k == j,
            None => false,
        };
        assert(last == is_last_with_path(secondary@, j as int)) by {
            if is_last_with_path(secondary@, j as int) {
                lemma_last_unique(secondary@, smap@[key] as int, j as int);
            }
        }
        if last && !pmap.contains_key(secondary[j].path.as_str()) {
            only_secondary.push(j);
        }
        j = j + 1;
    }
    PathPartition { only_primary, only_secondary, in_both }
}

/// A shared path whose size or whole-second modification time differs between the sides.
pub open spec fn pair_dirty(p: Seq<FileSt>, s: Seq<FileSt>, pair: (usize, usize)) -> bool {
    is_dirty(p[pair.0 as int].metadata, s[pair.1 as int].metadata)
}

pub open spec fn pairs_in_range(p: Seq<FileSt>, s: Seq<FileSt>, pairs: Seq<(usize, usize)>) -> bool {
    forall|k: int|
        0 <= k < pairs.len() ==> (#[trigger] pairs[k]).0 < p.len() && pairs[k].1 < s.len()
}

pub open spec fn firsts_increasing(pairs: Seq<(usize, usize)>) -> bool {
    forall|a: int, b: int| 0 <= a < b < pairs.len() ==> pairs[a].0 < pairs[b].0
}

/// The pairs of `in_both` whose metadata differ, in their order.
pub fn dirty_pairs(primary: &Vec<FileSt>, secondary: &Vec<FileSt>, in_both: &Vec<(usize, usize)>) -> (r: Vec<(usize, usize)>)
    requires
        pairs_in_range(primary@, secondary@, in_both@),
        firsts_increasing(in_both@),
    ensures
        pairs_in_range(primary@, secondary@, r@),
        firsts_increasing(r@),
        forall|x: (usize, usize)|
            r@.contains(x) <==> (in_both@.contains(x) && pair_dirty(primary@, secondary@, x)),
{
    let mut r: Vec<(usize, usize)> = Vec::new();
    let mut k: usize = 0;
    while k < in_both.len()
        invariant
            k <= in_both@.len(),
            pairs_in_range(primary@, secondary@, in_both@),
            firsts_increasing(in_both@),
            pairs_in_range(primary@, secondary@, r@),
            firsts_increasing(r@),
            forall|m: int|
                #![trigger r@[m]]
                0 <= m < r@.len() ==> exists|q: int| 0 <= q < k && #[trigger] in_both@[q] == r@[m],
            forall|x: (usize, usize)|
                r@.contains(x) <==> (in_both@.subrange(0, k as int).contains(x) && pair_dirty(
                    primary@,
                    secondary@,
                    x,
                )),
        decreases in_both@.len() - k,
    {
        let (i, j) = in_both[k];
        let ghost before = r@;
        if primary[i].metadata.differs(&secondary[j].metadata) {
            r.push((i, j));
            assert forall|a: int, b: int| 0 <= a < b < r@.len() implies r@[a].0 < r@[b].0 by {
                if b == r@.len() - 1 {
                    let q = choose|q: int| 0 <= q < k && #[trigger] in_both@[q] == before[a];
                }
            }
            assert forall|m: int|
                #![trigger r@[m]]
                0 <= m < r@.len() implies exists|q: int|
                0 <= q < k + 1 && #[trigger] in_both@[q] == r@[m] by {
                if m == r@.len() - 1 {
                    assert(in_both@[k as int] == r@[m]);
                } else {
                    let q = choose|q: int| 0 <= q < k && #[trigger] in_both@[q] == before[m];
                    assert(in_both@[q] == r@[m]);
                }
            }
        }
        assert(in_both@.subrange(0, k + 1) =~= in_both@.subrange(0, k as int).push((i, j)));
        k = k + 1;
    }
    assert(in_both@.subrange(0, k as int) =~= in_both@);
    r
}

/// What a changed pair turns out to be once its primary side has been hashed again.
#[derive(Clone, Copy, Debug, PartialEq, Eq, Structural)]
pub enum Category {
    /// Metadata changed, content did not.
    DirtyValid,
    /// Content changed while size and modification time stayed the same.
    InvalidHash,
    /// Content and size changed, modification time did not.
    DirtyBySize,
    /// Content and modification time changed, size did not.
    DirtyByDate,
    /// Content, size and modification time all changed.
    DirtyByBoth,
}

/// The category of a changed pair, from whether hash, size and modification time agree.
pub open spec fn classify(hash_equal: bool, size_equal: bool, date_equal: bool) -> Category {
    if hash_equal {
        Category::DirtyValid
    } else if size_equal && date_equal {
        Category::InvalidHash
    } else if !size_equal && date_equal {
        Category::DirtyBySize
    } else if size_equal && !date_equal {
        Category::DirtyByDate
    } else {
        Category::DirtyByBoth
    }
}

/// The category of a pair, when both of its hashes are there to compare.
pub open spec fn pair_category(p: Seq<FileSt>, s: Seq<FileSt>, pair: (usize, usize)) -> Option<Category> {
    let a = p[pair.0 as int];
    let b = s[pair.1 as int];
    match (a.calculated_hash, b.loaded_hash) {
        (Some(h), Some(l)) => Some(
            classify(
                h.bytes@ == l.bytes@,
                a.metadata.size == b.metadata.size,
                a.metadata.last_modified == b.metadata.last_modified,
            ),
        ),
        _ => None,
    }
}

/// Primary indices of the changed pairs, one list per category.
pub struct Classification {
    pub dirty_valid: Vec<usize>,
    pub invalid_hash: Vec<usize>,
    pub dirty_by_size: Vec<usize>,
    pub dirty_by_date: Vec<usize>,
    pub dirty_by_both: Vec<usize>,
}

pub open spec fn bucket(c: Classification, cat: Category) -> Seq<usize> {
    match cat {
        Category::DirtyValid => c.dirty_valid@,
        Category::InvalidHash => c.invalid_hash@,
        Category::DirtyBySize => c.dirty_by_size@,
        Category::DirtyByDate => c.dirty_by_date@,
        Category::DirtyByBoth => c.dirty_by_both@,
    }
}

/// `c` files the primary index of each pair of `dirty` under the pair's category, and holds
/// nothing else. A pair whose primary could not be hashed is in no list.
pub open spec fn is_classification(
    p: Seq<FileSt>,
    s: Seq<FileSt>,
    dirty: Seq<(usize, usize)>,
    c: Classification,
) -> bool {
    &&& forall|k: int, cat: Category|
        #![trigger bucket(c, cat).contains(dirty[k].0)]
        0 <= k < dirty.len() ==> (bucket(c, cat).contains(dirty[k].0) <==> pair_category(
            p,
            s,
            dirty[k],
        ) == Some(cat))
    &&& forall|cat: Category, x: usize|
        #[trigger] bucket(c, cat).contains(x) ==> exists|k: int|
            0 <= k < dirty.len() && #[trigger] dirty[k].0 == x
}

fn category_of(a: &FileSt, b: &FileSt) -> (r: Option<Category>)
    ensures
        r == (match (a.calculated_hash, b.loaded_hash) {
            (Some(h), Some(l)) => Some(
                classify(
                    h.bytes@ == l.bytes@,
                    a.metadata.size == b.metadata.size,
                    a.metadata.last_modified == b.metadata.last_modified,
                ),
            ),
            _ => None,
        }),
{
    match (&a.calculated_hash, &b.loaded_hash) {
        (Some(h), Some(l)) => {
            let size_equal = a.metadata.size == b.metadata.size;
            let date_equal = a.metadata.last_modified == b.metadata.last_modified;
            if h.equals(l) {
                Some(Category::DirtyValid)
            } else if size_equal && date_equal {
                Some(Category::InvalidHash)
            } else if !size_equal && date_equal {
                Some(Category::DirtyBySize)
            } else if size_equal && !date_equal {
                Some(Category::DirtyByDate)
            } else {
                Some(Category::DirtyByBoth)
            }
        },
        _ => None,
    }
}

/// Sorts the changed pairs into categories by comparing the fresh primary hash with the
/// secondary's recorded one, and which of size and modification time differ.
pub fn classify_dirty(primary: &Vec<FileSt>, secondary: &Vec<FileSt>, dirty: &Vec<(usize, usize)>) -> (r: Classification)
    requires
        pairs_in_range(primary@, secondary@, dirty@),
        firsts_increasing(dirty@),
    ensures
        is_classification(primary@, secondary@, dirty@, r),
{
    let mut c = Classification {
        dirty_valid: Vec::new(),
        invalid_hash: Vec::new(),
        dirty_by_size: Vec::new(),
        dirty_by_date: Vec::new(),
        dirty_by_both: Vec::new(),
    };
    let mut k: usize = 0;
    while k < dirty.len()
        invariant
            k <= dirty@.len(),
            pairs_in_range(primary@, secondary@, dirty@),
            firsts_increasing(dirty@),
            forall|q: int, cat: Category|
                #![trigger bucket(c, cat).contains(dirty@[q].0)]
                0 <= q < k ==> (bucket(c, cat).contains(dirty@[q].0) <==> pair_category(
                    primary@,
                    secondary@,
                    dirty@[q],
                ) == Some(cat)),
            forall|cat: Category, x: usize|
                #[trigger] bucket(c, cat).contains(x) ==> exists|q: int|
                    0 <= q < k && #[trigger] dirty@[q].0 == x,
        decreases dirty@.len() - k,
    {
        let (i, j) = dirty[k];
        let ghost old_c = c;
        let cat = category_of(&primary[i], &secondary[j]);
        match cat {
            Some(Category::DirtyValid) => c.dirty_valid.push(i),
            Some(Category::InvalidHash) => c.invalid_hash.push(i),
            Some(Category::DirtyBySize) => c.dirty_by_size.push(i),
            Some(Category::DirtyByDate) => c.dirty_by_date.push(i),
            Some(Category::DirtyByBoth) => c.dirty_by_both.push(i),
            None => {},
        }
        assert forall|cat2: Category, x: usize|
            #[trigger] bucket(c, cat2).contains(x) implies exists|q: int|
                0 <= q < k + 1 && #[trigger] dirty@[q].0 == x by {
            if x == i {
                assert(dirty@[k as int].0 == x);
            } else {
                assert(bucket(old_c, cat2).contains(x));
            }
        }
        assert forall|q: int, cat2: Category|
            #![trigger bucket(c, cat2).contains(dirty@[q].0)]
            0 <= q < k + 1 implies (bucket(c, cat2).contains(dirty@[q].0) <==> pair_category(
                primary@,
                secondary@,
                dirty@[q],
            ) == Some(cat2)) by {
            if q < k {
                assert(dirty@[q].0 < i);
                if bucket(old_c, cat2).contains(dirty@[q].0) {
                } else if bucket(c, cat2).contains(dirty@[q].0) {
                    assert(bucket(old_c, cat2).contains(dirty@[q].0));
                }
            } else {
                if bucket(old_c, cat2).contains(i) {
                    let q2 = choose|q2: int| 0 <= q2 < k && #[trigger] dirty@[q2].0 == i;
                    assert(dirty@[q2].0 < dirty@[k as int].0);
                }
            }
        }
        k = k + 1;
    }
    c
}

/// Each changed pair whose primary was hashed lands in exactly one category, the one that
/// `classify` gives for whether its hash, size and modification time agree.
pub proof fn lemma_dirty_category_unique(
    p: Seq<FileSt>,
    s: Seq<FileSt>,
    dirty: Seq<(usize, usize)>,
    c: Classification,
    k: int,
)
    requires
        is_classification(p, s, dirty, c),
        0 <= k < dirty.len(),
        pair_category(p, s, dirty[k]) is Some,
    ensures
        bucket(c, pair_category(p, s, dirty[k])->0).contains(dirty[k].0),
        forall|cat: Category|
            #[trigger] bucket(c, cat).contains(dirty[k].0) ==> cat == pair_category(p, s, dirty[k])->0,
{
}

/// The bytes of a record's loaded hash.
pub open spec fn loaded_bytes(f: FileSt) -> Seq<u8> {
    f.loaded_hash->0.bytes@
}

pub open spec fn all_loaded(s: Seq<FileSt>) -> bool {
    forall|k: int| 0 <= k < s.len() ==> (#[trigger] s[k]).loaded_hash is Some
}

pub open spec fn indices_in_range(v: Seq<usize>, n: int) -> bool {
    forall|k: int| 0 <= k < v.len() ==> #[trigger] v[k] < n
}

/// Primary record `i` is among `op` and was hashed to `h`.
pub open spec fn primary_with(p: Seq<FileSt>, op: Seq<usize>, h: Seq<u8>, i: usize) -> bool {
    op.contains(i) && p[i as int].calculated_hash is Some && p[i as int].calculated_hash->0.bytes@
        == h
}

/// Secondary record `j` is among `os` and recorded `h`.
pub open spec fn secondary_with(s: Seq<FileSt>, os: Seq<usize>, h: Seq<u8>, j: usize) -> bool {
    os.contains(j) && s[j as int].loaded_hash is Some && s[j as int].loaded_hash->0.bytes@ == h
}

/// Some primary record among `op` has the content `h`.
pub open spec fn claimed(p: Seq<FileSt>, op: Seq<usize>, h: Seq<u8>) -> bool {
    exists|i: usize| #[trigger] primary_with(p, op, h, i)
}

/// How many of the first `n` secondary records recorded `h`.
pub open spec fn loaded_count(s: Seq<FileSt>, h: Seq<u8>, n: int) -> nat
    decreases n,
{
    if n <= 0 {
        0
    } else {
        loaded_count(s, h, n - 1) + (if s[n - 1].loaded_hash is Some && s[n
            - 1].loaded_hash->0.bytes@ == h {
            1nat
        } else {
            0nat
        })
    }
}

/// Content found on both sides under different paths: the primary-only and
/// secondary-only records that share the hash.
pub struct CrossMatch {
    pub hash: HashMD5,
    pub primary: Vec<usize>,
    pub secondary: Vec<usize>,
}

/// The outcome of cross-checking primary-only against secondary-only records by content.
pub struct Crosscheck {
    pub found: Vec<CrossMatch>,
    pub secondary_orphans: Vec<usize>,
    pub secondary_orphans_with_duplicate: Vec<usize>,
    pub primary_orphans: Vec<usize>,
}

/// `r` is the cross-check of the primary-only records `op` against the secondary-only
/// records `os`:
/// - one found entry per content shared by both groups, holding all of each side;
/// - a secondary-only record whose content no primary-only record has is an orphan when no
///   other manifest record has that content, and an orphan with a duplicate otherwise;
/// - a hashed primary-only record whose content no secondary-only record has is an orphan.
pub open spec fn is_crosscheck(
    p: Seq<FileSt>,
    s: Seq<FileSt>,
    op: Seq<usize>,
    os: Seq<usize>,
    r: Crosscheck,
) -> bool {
    &&& forall|e1: int, e2: int|
        0 <= e1 < e2 < r.found@.len() ==> r.found@[e1].hash.bytes@ != r.found@[e2].hash.bytes@
    &&& forall|e: int|
        #![trigger r.found@[e]]
        0 <= e < r.found@.len() ==> {
            let m = r.found@[e];
            &&& claimed(p, op, m.hash.bytes@)
            &&& m.secondary@.len() > 0
            &&& forall|i: usize| m.primary@.contains(i) <==> primary_with(p, op, m.hash.bytes@, i)
            &&& forall|j: usize|
                m.secondary@.contains(j) <==> secondary_with(s, os, m.hash.bytes@, j)
        }
    &&& forall|j: usize|
        os.contains(j) && claimed(p, op, loaded_bytes(s[j as int])) ==> exists|e: int|
            0 <= e < r.found@.len() && #[trigger] r.found@[e].hash.bytes@ == loaded_bytes(
                s[j as int],
            )
    &&& forall|j: usize|
        r.secondary_orphans@.contains(j) <==> (os.contains(j) && !claimed(
            p,
            op,
            loaded_bytes(s[j as int]),
        ) && loaded_count(s, loaded_bytes(s[j as int]), s.len() as int) == 1)
    &&& forall|j: usize|
        r.secondary_orphans_with_duplicate@.contains(j) <==> (os.contains(j) && !claimed(
            p,
            op,
            loaded_bytes(s[j as int]),
        ) && loaded_count(s, loaded_bytes(s[j as int]), s.len() as int) > 1)
    &&& forall|i: usize|
        r.primary_orphans@.contains(i) <==> (op.contains(i) && p[i as int].calculated_hash is Some
            && !(exists|j: usize|
            #[trigger] secondary_with(s, os, p[i as int].calculated_hash->0.bytes@, j)))
}

/// The hex text of the calculated hash of primary record `i`.
pub open spec fn calc_key(p: Seq<FileSt>, i: usize) -> Seq<char> {
    hex_of(p[i as int].calculated_hash->0.bytes@)
}

/// The hex text of the loaded hash of secondary record `j`.
pub open spec fn load_key(s: Seq<FileSt>, j: usize) -> Seq<char> {
    hex_of(s[j as int].loaded_hash->0.bytes@)
}

proof fn lemma_hex_injective(a: Seq<u8>, b: Seq<u8>)
    requires
        hex_of(a) == hex_of(b),
    ensures
        a == b,
{
    crate::hash::lemma_hex_round_trip(a);
    crate::hash::lemma_hex_round_trip(b);
}

/// Groups the hashed records among `op` by the hex text of their calculated hash: the map
/// gives, for each such text, the position of its group.
fn group_primaries(primary: &Vec<FileSt>, op: &Vec<usize>) -> (r: (StringHashMap<usize>, Vec<Vec<usize>>))
    requires
        indices_in_range(op@, primary@.len() as int),
    ensures
        forall|key: Seq<char>|
            #[trigger] r.0@.contains_key(key) <==> exists|i: usize|
                op@.contains(i) && primary@[i as int].calculated_hash is Some && #[trigger] calc_key(
                    primary@,
                    i,
                ) == key,
        forall|key: Seq<char>|
            #[trigger] r.0@.contains_key(key) ==> r.0@[key] < r.1@.len() && forall|i: usize|
                r.1@[r.0@[key] as int]@.contains(i) <==> (op@.contains(i)
                    && primary@[i as int].calculated_hash is Some && calc_key(primary@, i) == key),
{
    let mut map: StringHashMap<usize> = StringHashMap::new();
    let mut groups: Vec<Vec<usize>> = Vec::new();
    let ghost mut keys: Seq<Seq<char>> = Seq::empty();
    let mut t: usize = 0;
    while t < op.len()
        invariant
            t <= op@.len(),
            indices_in_range(op@, primary@.len() as int),
            keys.len() == groups@.len(),
            forall|g: int| 0 <= g < keys.len() ==> #[trigger] map@.contains_key(keys[g]) && map@[keys[g]] == g,
            forall|key: Seq<char>|
                #[trigger] map@.contains_key(key) <==> exists|i: usize|
                    op@.subrange(0, t as int).contains(i) && primary@[i as int].calculated_hash is Some
                        && #[trigger] calc_key(primary@, i) == key,
            forall|key: Seq<char>|
                #[trigger] map@.contains_key(key) ==> map@[key] < groups@.len() && keys[map@[key] as int] == key,
            forall|g: int, i: usize|
                0 <= g < groups@.len() ==> (groups@[g]@.contains(i) <==> (op@.subrange(0, t as int).contains(i)
                    && primary@[i as int].calculated_hash is Some && calc_key(primary@, i) == keys[g])),
        decreases op@.len() - t,
    {
        let i = op[t];
        let ghost before = op@.subrange(0, t as int);
        assert(op@.subrange(0, t + 1) =~= before.push(i));
        let ghost old_map = map@;
        let ghost old_groups = groups@;
        match &primary[i].calculated_hash {
            None => {},
            Some(h) => {
                let key = HashValue::to_string(h);
                let found = match map.get(key.as_str()) {
                    Some(g) => Some(*g),
                    None => None,
                };
                match found {
                    Some(g) => {
                        groups[g].push(i);
                        assert forall|g2: int, x: usize|
                            0 <= g2 < groups@.len() implies (groups@[g2]@.contains(x) <==> (
                            op@.subrange(0, t + 1).contains(x) && primary@[x as int].calculated_hash is Some
                                && calc_key(primary@, x) == keys[g2])) by {
                            if g2 != g {
                                assert(groups@[g2] == old_groups[g2]);
                                assert(keys[g2] != keys[g as int]);
                            }
                        }
                    },
                    None => {
                        let mut v: Vec<usize> = Vec::new();
                        v.push(i);
                        groups.push(v);
                        map.insert(key, groups.len() - 1);
                        assert(map@.contains_key(calc_key(primary@, i)));
                        let ghost old_keys = keys;
                        proof {
                            keys = keys.push(key@);
                        }
                        assert forall|g2: int|
                            0 <= g2 < keys.len() implies #[trigger] map@.contains_key(keys[g2])
                                && map@[keys[g2]] == g2 by {
                            if g2 < old_keys.len() {
                                assert(keys[g2] == old_keys[g2]);
                                assert(old_map.contains_key(old_keys[g2]));
                                assert(old_keys[g2] != key@);
                            }
                        }
                        assert forall|g2: int, x: usize|
                            0 <= g2 < groups@.len() implies (groups@[g2]@.contains(x) <==> (
                            op@.subrange(0, t + 1).contains(x) && primary@[x as int].calculated_hash is Some
                                && calc_key(primary@, x) == keys[g2])) by {
                            if g2 < old_groups.len() {
                                assert(groups@[g2] == old_groups[g2]);
                                assert(old_map.contains_key(keys[g2]));
                            } else {
                                if before.contains(x) && primary@[x as int].calculated_hash is Some
                                    && calc_key(primary@, x) == keys[g2] {
                                    assert(old_map.contains_key(calc_key(primary@, x)));
                                }
                            }
                        }
                    },
                }
                assert(map@.contains_key(calc_key(primary@, i)));
            },
        }
        assert forall|k2: Seq<char>|
            #[trigger] map@.contains_key(k2) <==> exists|x: usize|
                op@.subrange(0, t + 1).contains(x) && primary@[x as int].calculated_hash is Some
                    && #[trigger] calc_key(primary@, x) == k2 by {
            if exists|x: usize|
                op@.subrange(0, t + 1).contains(x) && primary@[x as int].calculated_hash is Some
                    && #[trigger] calc_key(primary@, x) == k2 {
                let x = choose|x: usize|
                    op@.subrange(0, t + 1).contains(x) && primary@[x as int].calculated_hash is Some
                        && #[trigger] calc_key(primary@, x) == k2;
                if x != i {
                    assert(before.contains(x));
                    assert(old_map.contains_key(k2));
                }
            }
            if map@.contains_key(k2) && !old_map.contains_key(k2) {
                assert(primary@[i as int].calculated_hash is Some && calc_key(primary@, i) == k2);
            }
            if old_map.contains_key(k2) {
                let x = choose|x: usize|
                    before.contains(x) && primary@[x as int].calculated_hash is Some
                        && #[trigger] calc_key(primary@, x) == k2;
                assert(op@.subrange(0, t + 1).contains(x));
            }
        }
        t = t + 1;
    }
    assert(op@.subrange(0, t as int) =~= op@);
    (map, groups)
}

fn copy_group(groups: &Vec<Vec<usize>>, g: usize) -> (r: Vec<usize>)
    ensures
        g < groups@.len() ==> r@ == groups@[g as int]@,
{
    if g >= groups.len() {
        return Vec::new();
    }
    let v = &groups[g];
    let mut r: Vec<usize> = Vec::new();
    let mut k: usize = 0;
    while k < v.len()
        invariant
            k <= v@.len(),
            r@ == v@.subrange(0, k as int),
        decreases v@.len() - k,
    {
        r.push(v[k]);
        k = k + 1;
        assert(r@ =~= v@.subrange(0, k as int));
    }
    assert(v@.subrange(0, k as int) =~= v@);
    r
}

/// How many records of `secondary` recorded each hash, by its hex text.
fn count_by_hash(secondary: &Vec<FileSt>) -> (m: StringHashMap<usize>)
    ensures
        forall|h: Seq<u8>|
            #[trigger] loaded_count(secondary@, h, secondary@.len() as int) == (if m@.contains_key(
                hex_of(h),
            ) {
                m@[hex_of(h)] as nat
            } else {
                0nat
            }),
{
    let mut m: StringHashMap<usize> = StringHashMap::new();
    let mut k: usize = 0;
    while k < secondary.len()
        invariant
            k <= secondary@.len(),
            forall|key: Seq<char>| #[trigger] m@.contains_key(key) ==> m@[key] <= k,
            forall|h: Seq<u8>|
                #[trigger] loaded_count(secondary@, h, k as int) == (if m@.contains_key(hex_of(h)) {
                    m@[hex_of(h)] as nat
                } else {
                    0nat
                }),
        decreases secondary@.len() - k,
    {
        let ghost old_m = m@;
        match &secondary[k].loaded_hash {
            None => {
                assert forall|h: Seq<u8>|
                    #[trigger] loaded_count(secondary@, h, k + 1) == (if m@.contains_key(hex_of(h)) {
                        m@[hex_of(h)] as nat
                    } else {
                        0nat
                    }) by {
                    assert(loaded_count(secondary@, h, k + 1) == loaded_count(secondary@, h, k as int));
                }
            },
            Some(l) => {
                let key = HashValue::to_string(l);
                let n = match m.get(key.as_str()) {
                    Some(c) => *c,
                    None => 0,
                };
                m.insert(key, n + 1);
                assert forall|h: Seq<u8>|
                    #[trigger] loaded_count(secondary@, h, k + 1) == (if m@.contains_key(hex_of(h)) {
                        m@[hex_of(h)] as nat
                    } else {
                        0nat
                    }) by {
                    assert(loaded_count(secondary@, h, k + 1) == loaded_count(secondary@, h, k as int)
                        + (if secondary@[k as int].loaded_hash is Some
                        && secondary@[k as int].loaded_hash->0.bytes@ == h {
                        1nat
                    } else {
                        0nat
                    }));
                    if hex_of(h) == hex_of(l.bytes@) {
                        lemma_hex_injective(h, l.bytes@);
                    } else {
                        assert(h != l.bytes@);
                    }
                }
            },
        }
        k = k + 1;
    }
    m
}

/// The hex texts of the loaded hashes of the records `os`.
fn loaded_keys(secondary: &Vec<FileSt>, os: &Vec<usize>) -> (m: StringHashMap<usize>)
    requires
        indices_in_range(os@, secondary@.len() as int),
    ensures
        forall|h: Seq<u8>|
            #[trigger] m@.contains_key(hex_of(h)) <==> exists|j: usize|
                #[trigger] secondary_with(secondary@, os@, h, j),
{
    let mut m: StringHashMap<usize> = StringHashMap::new();
    let mut t: usize = 0;
    while t < os.len()
        invariant
            t <= os@.len(),
            indices_in_range(os@, secondary@.len() as int),
            forall|h: Seq<u8>|
                #[trigger] m@.contains_key(hex_of(h)) <==> exists|j: usize|
                    #[trigger] secondary_with(secondary@, os@.subrange(0, t as int), h, j),
        decreases os@.len() - t,
    {
        let j = os[t];
        let ghost before = os@.subrange(0, t as int);
        assert(os@.subrange(0, t + 1) =~= before.push(j));
        let ghost old_m = m@;
        match &secondary[j].loaded_hash {
            None => {
                assert forall|h: Seq<u8>|
                    #[trigger] m@.contains_key(hex_of(h)) <==> exists|x: usize|
                        #[trigger] secondary_with(secondary@, os@.subrange(0, t + 1), h, x) by {
                    if exists|x: usize| #[trigger] secondary_with(secondary@, os@.subrange(0, t + 1), h, x) {
                        let x = choose|x: usize| #[trigger] secondary_with(secondary@, os@.subrange(0, t + 1), h, x);
                        assert(secondary_with(secondary@, before, h, x));
                    }
                    if exists|x: usize| #[trigger] secondary_with(secondary@, before, h, x) {
                        let x = choose|x: usize| #[trigger] secondary_with(secondary@, before, h, x);
                        assert(secondary_with(secondary@, os@.subrange(0, t + 1), h, x));
                    }
                }
            },
            Some(l) => {
                let key = HashValue::to_string(l);
                m.insert(key, j);
                assert forall|h: Seq<u8>|
                    #[trigger] m@.contains_key(hex_of(h)) <==> exists|x: usize|
                        #[trigger] secondary_with(secondary@, os@.subrange(0, t + 1), h, x) by {
                    if hex_of(h) == hex_of(l.bytes@) {
                        lemma_hex_injective(h, l.bytes@);
                        assert(secondary_with(secondary@, os@.subrange(0, t + 1), h, j));
                    } else {
                        if exists|x: usize| #[trigger] secondary_with(secondary@, os@.subrange(0, t + 1), h, x) {
                            let x = choose|x: usize| #[trigger] secondary_with(secondary@, os@.subrange(0, t + 1), h, x);
                            if x != j {
                                assert(secondary_with(secondary@, before, h, x));
                            }
                        }
                        if exists|x: usize| #[trigger] secondary_with(secondary@, before, h, x) {
                            let x = choose|x: usize| #[trigger] secondary_with(secondary@, before, h, x);
                            assert(secondary_with(secondary@, os@.subrange(0, t + 1), h, x));
                        }
                    }
                }
            },
        }
        t = t + 1;
    }
    assert(os@.subrange(0, t as int) =~= os@);
    m
}

/// Cross-checks the primary-only records `op` against the secondary-only records `os` by
/// content hash, telling moved files from files that were added or removed.
pub fn crosscheck(primary: &Vec<FileSt>, secondary: &Vec<FileSt>, op: &Vec<usize>, os: &Vec<usize>) -> (r: Crosscheck)
    requires
        indices_in_range(op@, primary@.len() as int),
        indices_in_range(os@, secondary@.len() as int),
        all_loaded(secondary@),
    ensures
        is_crosscheck(primary@, secondary@, op@, os@, r),
{
    let (gmap, groups) = group_primaries(primary, op);
    let counts = count_by_hash(secondary);
    let mut fmap: StringHashMap<usize> = StringHashMap::new();
    let mut found: Vec<CrossMatch> = Vec::new();
    let mut so: Vec<usize> = Vec::new();
    let mut sd: Vec<usize> = Vec::new();
    let mut t: usize = 0;
    while t < os.len()
        invariant
            t <= os@.len(),
            indices_in_range(op@, primary@.len() as int),
            indices_in_range(os@, secondary@.len() as int),
            all_loaded(secondary@),
            forall|key: Seq<char>|
                #[trigger] gmap@.contains_key(key) <==> exists|i: usize|
                    op@.contains(i) && primary@[i as int].calculated_hash is Some && #[trigger] calc_key(
                        primary@,
                        i,
                    ) == key,
            forall|key: Seq<char>|
                #[trigger] gmap@.contains_key(key) ==> gmap@[key] < groups@.len() && forall|i: usize|
                    groups@[gmap@[key] as int]@.contains(i) <==> (op@.contains(i)
                        && primary@[i as int].calculated_hash is Some && calc_key(primary@, i) == key),
            forall|h: Seq<u8>|
                #[trigger] loaded_count(secondary@, h, secondary@.len() as int) == (if counts@.contains_key(
                    hex_of(h),
                ) {
                    counts@[hex_of(h)] as nat
                } else {
                    0nat
                }),
            forall|e: int|
                0 <= e < found@.len() ==> #[trigger] fmap@.contains_key(hex_of(found@[e].hash.bytes@))
                    && fmap@[hex_of(found@[e].hash.bytes@)] == e,
            forall|key: Seq<char>|
                #[trigger] fmap@.contains_key(key) ==> fmap@[key] < found@.len() && hex_of(
                    found@[fmap@[key] as int].hash.bytes@,
                ) == key,
            forall|e1: int, e2: int|
                0 <= e1 < e2 < found@.len() ==> found@[e1].hash.bytes@ != found@[e2].hash.bytes@,
            forall|e: int|
                #![trigger found@[e]]
                0 <= e < found@.len() ==> {
                    let m = found@[e];
                    &&& claimed(primary@, op@, m.hash.bytes@)
                    &&& m.secondary@.len() > 0
                    &&& forall|i: usize|
                        m.primary@.contains(i) <==> primary_with(primary@, op@, m.hash.bytes@, i)
                    &&& forall|x: usize|
                        m.secondary@.contains(x) <==> secondary_with(
                            secondary@,
                            os@.subrange(0, t as int),
                            m.hash.bytes@,
                            x,
                        )
                },
            forall|x: usize|
                os@.subrange(0, t as int).contains(x) && claimed(
                    primary@,
                    op@,
                    loaded_bytes(secondary@[x as int]),
                ) ==> exists|e: int|
                    0 <= e < found@.len() && #[trigger] found@[e].hash.bytes@ == loaded_bytes(
                        secondary@[x as int],
                    ),
            forall|x: usize|
                so@.contains(x) <==> (os@.subrange(0, t as int).contains(x) && !claimed(
                    primary@,
                    op@,
                    loaded_bytes(secondary@[x as int]),
                ) && loaded_count(secondary@, loaded_bytes(secondary@[x as int]), secondary@.len() as int)
                    == 1),
            forall|x: usize|
                sd@.contains(x) <==> (os@.subrange(0, t as int).contains(x) && !claimed(
                    primary@,
                    op@,
                    loaded_bytes(secondary@[x as int]),
                ) && loaded_count(secondary@, loaded_bytes(secondary@[x as int]), secondary@.len() as int)
                    > 1),
        decreases os@.len() - t,
    {
        let j = os[t];
        let ghost before = os@.subrange(0, t as int);
        assert(os@.subrange(0, t + 1) =~= before.push(j));
        let ghost old_found = found@;
        assert(secondary@[j as int].loaded_hash is Some);
        let h: HashMD5 = match secondary[j].loaded_hash {
            Some(x) => x,
            None => HashMD5 { bytes: [0u8; 16] },
        };
        let key = HashValue::to_string(&h);
        let ghost mut witness: int = 0;
        let is_claimed = gmap.contains_key(key.as_str());
        assert(is_claimed == claimed(primary@, op@, h.bytes@)) by {
            if is_claimed {
                let i = choose|i: usize|
                    op@.contains(i) && primary@[i as int].calculated_hash is Some && #[trigger] calc_key(
                        primary@,
                        i,
                    ) == key@;
                lemma_hex_injective(primary@[i as int].calculated_hash->0.bytes@, h.bytes@);
                assert(primary_with(primary@, op@, h.bytes@, i));
            }
            if claimed(primary@, op@, h.bytes@) {
                let i = choose|i: usize| #[trigger] primary_with(primary@, op@, h.bytes@, i);
                assert(calc_key(primary@, i) == key@);
            }
        }
        if is_claimed {
            let entry = match fmap.get(key.as_str()) {
                Some(e) => Some(*e),
                None => None,
            };
            match entry {
                Some(e) => {
                    proof {
                        lemma_hex_injective(found@[e as int].hash.bytes@, h.bytes@);
                    }
                    found[e].secondary.push(j);
                    assert forall|e2: int|
                        0 <= e2 < found@.len() implies #[trigger] fmap@.contains_key(hex_of(found@[e2].hash.bytes@))
                            && fmap@[hex_of(found@[e2].hash.bytes@)] == e2 by {
                        assert(found@[e2].hash == old_found[e2].hash);
                    }
                    assert forall|k2: Seq<char>|
                        #[trigger] fmap@.contains_key(k2) implies fmap@[k2] < found@.len() && hex_of(
                            found@[fmap@[k2] as int].hash.bytes@,
                        ) == k2 by {
                        assert(found@[fmap@[k2] as int].hash == old_found[fmap@[k2] as int].hash);
                    }
                    assert forall|q: int|
                        #![trigger found@[q]]
                        0 <= q < found@.len() implies forall|x: usize|
                        found@[q].secondary@.contains(x) <==> secondary_with(
                            secondary@,
                            os@.subrange(0, t + 1),
                            found@[q].hash.bytes@,
                            x,
                        ) by {
                        if q != e {
                            assert(found@[q] == old_found[q]);
                            assert(fmap@.contains_key(hex_of(old_found[q].hash.bytes@)));
                            assert(fmap@.contains_key(hex_of(old_found[e as int].hash.bytes@)));
                            assert(old_found[q].hash.bytes@ != h.bytes@);
                        }
                    }
                    proof {
                        witness = e as int;
                    }
                },
                None => {
                    assert forall|e2: int| 0 <= e2 < found@.len() implies #[trigger] found@[e2].hash.bytes@
                        != h.bytes@ by {
                        assert(fmap@.contains_key(hex_of(found@[e2].hash.bytes@)));
                    }
                    let g = match gmap.get(key.as_str()) {
                        Some(g) => *g,
                        None => 0,
                    };
                    assert(gmap@.contains_key(key@));
                    assert(g == gmap@[key@]);
                    let prim = copy_group(&groups, g);
                    assert(prim@ == groups@[g as int]@);
                    assert forall|i: usize| prim@.contains(i) <==> primary_with(primary@, op@, h.bytes@, i) by {
                        assert(prim@.contains(i) == groups@[g as int]@.contains(i));
                        assert(groups@[g as int]@.contains(i) <==> (op@.contains(i)
                            && primary@[i as int].calculated_hash is Some && calc_key(primary@, i) == key@));
                        if primary@[i as int].calculated_hash is Some && calc_key(primary@, i) == key@ {
                            lemma_hex_injective(primary@[i as int].calculated_hash->0.bytes@, h.bytes@);
                        }
                    }
                    let mut sec: Vec<usize> = Vec::new();
                    sec.push(j);
                    found.push(CrossMatch { hash: h, primary: prim, secondary: sec });
                    fmap.insert(key, found.len() - 1);
                    assert forall|q: int|
                        #![trigger found@[q]]
                        0 <= q < found@.len() implies forall|x: usize|
                        found@[q].secondary@.contains(x) <==> secondary_with(
                            secondary@,
                            os@.subrange(0, t + 1),
                            found@[q].hash.bytes@,
                            x,
                        ) by {
                        if q < old_found.len() {
                            assert(found@[q] == old_found[q]);
                        } else {
                            assert forall|x: usize|
                                found@[q].secondary@.contains(x) <==> secondary_with(
                                    secondary@,
                                    os@.subrange(0, t + 1),
                                    found@[q].hash.bytes@,
                                    x,
                                ) by {
                                if secondary_with(secondary@, before, h.bytes@, x) {
                                    assert(claimed(primary@, op@, loaded_bytes(secondary@[x as int])));
                                    let e2 = choose|e2: int|
                                        0 <= e2 < old_found.len() && #[trigger] old_found[e2].hash.bytes@
                                            == loaded_bytes(secondary@[x as int]);
                                    assert(found@[e2].hash.bytes@ == old_found[e2].hash.bytes@);
                                }
                            }
                        }
                    }
                    assert forall|e2: int|
                        0 <= e2 < found@.len() implies #[trigger] fmap@.contains_key(hex_of(found@[e2].hash.bytes@))
                            && fmap@[hex_of(found@[e2].hash.bytes@)] == e2 by {
                        if e2 < old_found.len() {
                            assert(found@[e2] == old_found[e2]);
                            assert(hex_of(found@[e2].hash.bytes@) != key@);
                        }
                    }
                    assert forall|k2: Seq<char>|
                        #[trigger] fmap@.contains_key(k2) implies fmap@[k2] < found@.len() && hex_of(
                            found@[fmap@[k2] as int].hash.bytes@,
                        ) == k2 by {
                        if k2 != key@ {
                            assert(found@[fmap@[k2] as int] == old_found[fmap@[k2] as int]);
                        }
                    }
                    assert(found@[old_found.len() as int].hash.bytes@ == h.bytes@);
                    proof {
                        witness = old_found.len() as int;
                    }
                },
            }
        } else {
            let c = match counts.get(key.as_str()) {
                Some(c) => *c,
                None => 0,
            };
            assert(c == loaded_count(secondary@, h.bytes@, secondary@.len() as int));
            assert(found@ == old_found);
            if c == 1 {
                so.push(j);
            } else {
                assert(loaded_count(secondary@, h.bytes@, secondary@.len() as int) >= 1) by {
                    lemma_loaded_count_positive(secondary@, j as int, secondary@.len() as int);
                }
                sd.push(j);
            }
        }
        assert forall|x: usize|
            os@.subrange(0, t + 1).contains(x) && claimed(
                primary@,
                op@,
                loaded_bytes(secondary@[x as int]),
            ) implies exists|e: int|
            0 <= e < found@.len() && #[trigger] found@[e].hash.bytes@ == loaded_bytes(
                secondary@[x as int],
            ) by {
            if before.contains(x) {
                let e2 = choose|e2: int|
                    0 <= e2 < old_found.len() && #[trigger] old_found[e2].hash.bytes@
                        == loaded_bytes(secondary@[x as int]);
                assert(found@[e2].hash.bytes@ == old_found[e2].hash.bytes@);
            } else {
                assert(x == j);
                assert(found@[witness].hash.bytes@ == h.bytes@);
            }
        }
        t = t + 1;
    }
    assert(os@.subrange(0, t as int) =~= os@);
    assert forall|x: usize|
        os@.contains(x) && claimed(primary@, op@, loaded_bytes(secondary@[x as int])) implies exists|e: int|
            0 <= e < found@.len() && #[trigger] found@[e].hash.bytes@ == loaded_bytes(
                secondary@[x as int],
            ) by {
        assert(os@.subrange(0, t as int).contains(x));
    }
    let okeys = loaded_keys(secondary, os);
    let mut po: Vec<usize> = Vec::new();
    let mut u: usize = 0;
    while u < op.len()
        invariant
            u <= op@.len(),
            indices_in_range(op@, primary@.len() as int),
            indices_in_range(os@, secondary@.len() as int),
            forall|h: Seq<u8>|
                #[trigger] okeys@.contains_key(hex_of(h)) <==> exists|j: usize|
                    #[trigger] secondary_with(secondary@, os@, h, j),
            forall|x: usize|
                os@.contains(x) && claimed(primary@, op@, loaded_bytes(secondary@[x as int]))
                    ==> exists|e: int|
                    0 <= e < found@.len() && #[trigger] found@[e].hash.bytes@ == loaded_bytes(
                        secondary@[x as int],
                    ),
            forall|i: usize|
                po@.contains(i) <==> (op@.subrange(0, u as int).contains(i)
                    && primary@[i as int].calculated_hash is Some && !(exists|x: usize|
                    #[trigger] secondary_with(
                        secondary@,
                        os@,
                        primary@[i as int].calculated_hash->0.bytes@,
                        x,
                    ))),
        decreases op@.len() - u,
    {
        let i = op[u];
        assert(op@.subrange(0, u + 1) =~= op@.subrange(0, u as int).push(i));
        match &primary[i].calculated_hash {
            Some(x) => {
                let key = HashValue::to_string(x);
                if !okeys.contains_key(key.as_str()) {
                    po.push(i);
                }
            },
            None => {},
        }
        u = u + 1;
    }
    assert(op@.subrange(0, u as int) =~= op@);
    let ghost fv = found@;
    let r = Crosscheck {
        found,
        secondary_orphans: so,
        secondary_orphans_with_duplicate: sd,
        primary_orphans: po,
    };
    assert forall|x: usize|
        os@.contains(x) && claimed(primary@, op@, loaded_bytes(secondary@[x as int])) implies exists|e: int|
            0 <= e < r.found@.len() && #[trigger] r.found@[e].hash.bytes@ == loaded_bytes(
                secondary@[x as int],
            ) by {
        let e = choose|e: int|
            0 <= e < fv.len() && #[trigger] fv[e].hash.bytes@ == loaded_bytes(secondary@[x as int]);
        assert(r.found@[e] == fv[e]);
    }
    r
}

proof fn lemma_loaded_count_positive(s: Seq<FileSt>, j: int, n: int)
    requires
        0 <= j < n <= s.len(),
        s[j].loaded_hash is Some,
    ensures
        loaded_count(s, loaded_bytes(s[j]), n) >= 1,
    decreases n,
{
    if j < n - 1 {
        lemma_loaded_count_positive(s, j, n - 1);
    }
}

/// A primary-only and a secondary-only record with the same content are reported together
/// as found, and neither of them as an orphan.
pub proof fn lemma_crosscheck_symmetry(
    p: Seq<FileSt>,
    s: Seq<FileSt>,
    op: Seq<usize>,
    os: Seq<usize>,
    r: Crosscheck,
    i: usize,
    j: usize,
)
    requires
        is_crosscheck(p, s, op, os, r),
        op.contains(i),
        os.contains(j),
        p[i as int].calculated_hash is Some,
        s[j as int].loaded_hash is Some,
        p[i as int].calculated_hash->0.bytes@ == s[j as int].loaded_hash->0.bytes@,
    ensures
        exists|e: int|
            0 <= e < r.found@.len() && (#[trigger] r.found@[e]).primary@.contains(i)
                && r.found@[e].secondary@.contains(j),
        !r.primary_orphans@.contains(i),
        !r.secondary_orphans@.contains(j),
        !r.secondary_orphans_with_duplicate@.contains(j),
{
    let h = s[j as int].loaded_hash->0.bytes@;
    assert(primary_with(p, op, h, i));
    assert(claimed(p, op, loaded_bytes(s[j as int])));
    let e = choose|e: int| 0 <= e < r.found@.len() && #[trigger] r.found@[e].hash.bytes@ == h;
    assert(r.found@[e].primary@.contains(i));
    assert(r.found@[e].secondary@.contains(j));
    assert(secondary_with(s, os, p[i as int].calculated_hash->0.bytes@, j));
}

/// Gives every unchanged shared-path record of the primary the hash the manifest recorded
/// for it: such files were not hashed again. Changed pairs keep their freshly computed hash.
pub fn propagate_hashes(primary: &mut Vec<FileSt>, secondary: &Vec<FileSt>, in_both: &Vec<(usize, usize)>)
    requires
        pairs_in_range(old(primary)@, secondary@, in_both@),
        firsts_increasing(in_both@),
    ensures
        final(primary)@.len() == old(primary)@.len(),
        forall|x: int|
            0 <= x < old(primary)@.len() ==> {
                &&& (#[trigger] final(primary)@[x]).path == old(primary)@[x].path
                &&& final(primary)@[x].loaded_hash == old(primary)@[x].loaded_hash
                &&& final(primary)@[x].metadata == old(primary)@[x].metadata
            },
        forall|k: int|
            0 <= k < in_both@.len() && !pair_dirty(old(primary)@, secondary@, #[trigger] in_both@[k])
                ==> final(primary)@[in_both@[k].0 as int].calculated_hash == secondary@[in_both@[k].1 as int].loaded_hash,
        forall|x: int|
            0 <= x < old(primary)@.len() && (#[trigger] final(primary)@[x]).calculated_hash
                != old(primary)@[x].calculated_hash ==> exists|k: int|
                0 <= k < in_both@.len() && #[trigger] in_both@[k].0 == x && !pair_dirty(
                    old(primary)@,
                    secondary@,
                    in_both@[k],
                ),
{
    let ghost orig = primary@;
    let mut k: usize = 0;
    while k < in_both.len()
        invariant
            k <= in_both@.len(),
            pairs_in_range(orig, secondary@, in_both@),
            firsts_increasing(in_both@),
            primary@.len() == orig.len(),
            forall|x: int|
                0 <= x < orig.len() ==> {
                    &&& (#[trigger] primary@[x]).path == orig[x].path
                    &&& primary@[x].loaded_hash == orig[x].loaded_hash
                    &&& primary@[x].metadata == orig[x].metadata
                },
            forall|q: int|
                0 <= q < k && !pair_dirty(orig, secondary@, #[trigger] in_both@[q])
                    ==> primary@[in_both@[q].0 as int].calculated_hash == secondary@[in_both@[q].1 as int].loaded_hash,
            forall|x: int|
                0 <= x < orig.len() && (#[trigger] primary@[x]).calculated_hash
                    != orig[x].calculated_hash ==> exists|q: int|
                    0 <= q < k && #[trigger] in_both@[q].0 == x && !pair_dirty(
                        orig,
                        secondary@,
                        in_both@[q],
                    ),
        decreases in_both@.len() - k,
    {
        let (i, j) = in_both[k];
        let ghost prev = primary@;
        if !primary[i].metadata.differs(&secondary[j].metadata) {
            let h = secondary[j].loaded_hash;
            primary[i].calculated_hash = h;
            assert forall|q: int|
                0 <= q < k + 1 && !pair_dirty(orig, secondary@, #[trigger] in_both@[q])
                    implies primary@[in_both@[q].0 as int].calculated_hash == secondary@[in_both@[q].1 as int].loaded_hash by {
                if q < k {
                    assert(in_both@[q].0 < in_both@[k as int].0);
                }
            }
            assert forall|x: int|
                0 <= x < orig.len() && (#[trigger] primary@[x]).calculated_hash
                    != orig[x].calculated_hash implies exists|q: int|
                    0 <= q < k + 1 && #[trigger] in_both@[q].0 == x && !pair_dirty(
                        orig,
                        secondary@,
                        in_both@[q],
                    ) by {
                if x == i {
                    assert(in_both@[k as int].0 == x);
                } else {
                    assert(primary@[x] == prev[x]);
                }
            }
        }
        k = k + 1;
    }
}

proof fn lemma_usize_range(n: usize)
    ensures
        Set::new(|x: usize| x < n).finite(),
        Set::new(|x: usize| x < n).len() == n,
    decreases n,
{
    if n == 0 {
        assert(Set::new(|x: usize| x < n) =~= Set::<usize>::empty());
    } else {
        let m = (n - 1) as usize;
        lemma_usize_range(m);
        assert(Set::new(|x: usize| x < m).insert(m) =~= Set::new(|x: usize| x < n));
    }
}

/// Two duplicate-free index lists that split `0..n` between them hold `n` indices in all.
proof fn lemma_cover_count(a: Seq<usize>, b: Seq<usize>, n: usize)
    requires
        a.no_duplicates(),
        b.no_duplicates(),
        forall|x: usize| a.contains(x) ==> x < n,
        forall|x: usize| b.contains(x) ==> x < n,
        forall|x: usize| x < n ==> (a.contains(x) <==> !b.contains(x)),
    ensures
        a.len() + b.len() == n,
{
    a.unique_seq_to_set();
    b.unique_seq_to_set();
    lemma_usize_range(n);
    assert(a.to_set() + b.to_set() =~= Set::new(|x: usize| x < n));
    assert(a.to_set().disjoint(b.to_set()));
    vstd::set_lib::lemma_set_disjoint_lens(a.to_set(), b.to_set());
}

pub open spec fn firsts(pairs: Seq<(usize, usize)>) -> Seq<usize> {
    pairs.map_values(|q: (usize, usize)| q.0)
}

pub open spec fn seconds(pairs: Seq<(usize, usize)>) -> Seq<usize> {
    pairs.map_values(|q: (usize, usize)| q.1)
}

/// Where paths are unique within each snapshot, every record lands in exactly one of
/// "only on its side" and "shared", so that
/// `|only primary| + |shared| = |primary|` and `|only secondary| + |shared| = |secondary|`.
pub proof fn lemma_partition_complete(p: Seq<FileSt>, s: Seq<FileSt>, r: PathPartition)
    requires
        is_partition(p, s, r),
        distinct_paths(p),
        distinct_paths(s),
        p.len() <= usize::MAX,
        s.len() <= usize::MAX,
    ensures
        forall|i: usize|
            i < p.len() ==> (r.only_primary@.contains(i) <==> !firsts(r.in_both@).contains(i)),
        forall|j: usize|
            j < s.len() ==> (r.only_secondary@.contains(j) <==> !seconds(r.in_both@).contains(j)),
        r.only_primary@.len() + r.in_both@.len() == p.len(),
        r.only_secondary@.len() + r.in_both@.len() == s.len(),
{
    let f = firsts(r.in_both@);
    let g = seconds(r.in_both@);
    assert forall|i: usize| i < p.len() implies (r.only_primary@.contains(i) <==> !f.contains(i)) by {
        assert(is_last_with_path(p, i as int));
        if has_path(s, p[i as int].path@) {
            let k = choose|k: int| 0 <= k < r.in_both@.len() && #[trigger] r.in_both@[k].0 == i;
            assert(f[k] == i);
        } else {
            if f.contains(i) {
                let k = choose|k: int| 0 <= k < f.len() && f[k] == i;
                let q = r.in_both@[k];
                assert(s[q.1 as int].path@ == p[i as int].path@);
            }
        }
    }
    assert forall|j: usize| j < s.len() implies (r.only_secondary@.contains(j) <==> !g.contains(j)) by {
        assert(is_last_with_path(s, j as int));
        if has_path(p, s[j as int].path@) {
            let i = choose|i: int| 0 <= i < p.len() && #[trigger] p[i].path@ == s[j as int].path@;
            assert(is_last_with_path(p, i));
            assert(has_path(s, p[i].path@));
            let k = choose|k: int| 0 <= k < r.in_both@.len() && #[trigger] r.in_both@[k].0 == i;
            let q = r.in_both@[k];
            assert(s[q.1 as int].path@ == s[j as int].path@);
            assert(q.1 == j);
            assert(g[k] == j);
        } else {
            if g.contains(j) {
                let k = choose|k: int| 0 <= k < g.len() && g[k] == j;
                let q = r.in_both@[k];
                assert(p[q.0 as int].path@ == s[j as int].path@);
            }
        }
    }
    assert(r.only_primary@.no_duplicates());
    assert(f.no_duplicates());
    assert forall|x: usize| r.only_primary@.contains(x) implies x < p.len() by {
        assert(is_last_with_path(p, x as int));
    }
    assert forall|x: usize| f.contains(x) implies x < p.len() by {
        let k = choose|k: int| 0 <= k < f.len() && f[k] == x;
        assert(r.in_both@[k].0 == x);
    }
    lemma_cover_count(r.only_primary@, f, p.len() as usize);
    assert(r.only_secondary@.no_duplicates());
    assert forall|a: int, b: int| 0 <= a < g.len() && 0 <= b < g.len() && a != b implies g[a] != g[b] by {
        let qa = r.in_both@[a];
        let qb = r.in_both@[b];
        if qa.1 == qb.1 {
            assert(p[qa.0 as int].path@ == p[qb.0 as int].path@);
            if a < b {
                assert(qa.0 < qb.0);
            } else {
                assert(qb.0 < qa.0);
            }
        }
    }
    assert forall|x: usize| r.only_secondary@.contains(x) implies x < s.len() by {
        assert(is_last_with_path(s, x as int));
    }
    assert forall|x: usize| g.contains(x) implies x < s.len() by {
        let k = choose|k: int| 0 <= k < g.len() && g[k] == x;
        assert(r.in_both@[k].1 == x);
    }
    lemma_cover_count(r.only_secondary@, g, s.len() as usize);
}

/// The lists of a partition index into their snapshots.
pub proof fn lemma_partition_ranges(p: Seq<FileSt>, s: Seq<FileSt>, r: PathPartition)
    requires
        is_partition(p, s, r),
    ensures
        pairs_in_range(p, s, r.in_both@),
        firsts_increasing(r.in_both@),
        indices_in_range(r.only_primary@, p.len() as int),
        indices_in_range(r.only_secondary@, s.len() as int),
{
    assert forall|k: int| 0 <= k < r.only_primary@.len() implies #[trigger] r.only_primary@[k] < p.len() by {
        assert(r.only_primary@.contains(r.only_primary@[k]));
        assert(is_last_with_path(p, r.only_primary@[k] as int));
    }
    assert forall|k: int| 0 <= k < r.only_secondary@.len() implies #[trigger] r.only_secondary@[k] < s.len() by {
        assert(r.only_secondary@.contains(r.only_secondary@[k]));
        assert(is_last_with_path(s, r.only_secondary@[k] as int));
    }
}

/// Each hashed only-on-disk record is either an orphan or in exactly one found group, never
/// both: the only-on-disk records split into orphans and found content.
pub proof fn lemma_only_primary_split(
    p: Seq<FileSt>,
    s: Seq<FileSt>,
    op: Seq<usize>,
    os: Seq<usize>,
    r: Crosscheck,
    i: usize,
)
    requires
        is_crosscheck(p, s, op, os, r),
        op.contains(i),
        p[i as int].calculated_hash is Some,
    ensures
        r.primary_orphans@.contains(i) != (exists|e: int|
            0 <= e < r.found@.len() && (#[trigger] r.found@[e]).primary@.contains(i)),
        forall|e1: int, e2: int|
            0 <= e1 < r.found@.len() && 0 <= e2 < r.found@.len() && (#[trigger] r.found@[e1]).primary@.contains(i)
                && (#[trigger] r.found@[e2]).primary@.contains(i) ==> e1 == e2,
{
    let h = p[i as int].calculated_hash->0.bytes@;
    if exists|e: int| 0 <= e < r.found@.len() && (#[trigger] r.found@[e]).primary@.contains(i) {
        let e = choose|e: int| 0 <= e < r.found@.len() && (#[trigger] r.found@[e]).primary@.contains(i);
        let m = r.found@[e];
        assert(primary_with(p, op, m.hash.bytes@, i));
        let j = m.secondary@[0];
        assert(m.secondary@.contains(j));
        assert(secondary_with(s, os, h, j));
        assert(!r.primary_orphans@.contains(i));
    } else {
        if exists|j: usize| #[trigger] secondary_with(s, os, h, j) {
            let j = choose|j: usize| #[trigger] secondary_with(s, os, h, j);
            assert(primary_with(p, op, h, i));
            assert(claimed(p, op, loaded_bytes(s[j as int])));
            let e = choose|e: int|
                0 <= e < r.found@.len() && #[trigger] r.found@[e].hash.bytes@ == loaded_bytes(s[j as int]);
            assert(r.found@[e].primary@.contains(i));
        }
    }
    assert forall|e1: int, e2: int|
        0 <= e1 < r.found@.len() && 0 <= e2 < r.found@.len() && (#[trigger] r.found@[e1]).primary@.contains(i)
            && (#[trigger] r.found@[e2]).primary@.contains(i) implies e1 == e2 by {
        assert(primary_with(p, op, r.found@[e1].hash.bytes@, i));
        assert(primary_with(p, op, r.found@[e2].hash.bytes@, i));
        if e1 < e2 {
            assert(r.found@[e1].hash.bytes@ != r.found@[e2].hash.bytes@);
        } else if e2 < e1 {
            assert(r.found@[e2].hash.bytes@ != r.found@[e1].hash.bytes@);
        }
    }
}

/// A shared-path pair whose size and whole-second modification time are unchanged (as for
/// times that differ only below the second) is not dirty, so its disk record lands in no
/// category of changed pairs.
pub proof fn lemma_clean_pair_unclassified(
    p: Seq<FileSt>,
    s: Seq<FileSt>,
    in_both: Seq<(usize, usize)>,
    dirty: Seq<(usize, usize)>,
    c: Classification,
    k: int,
)
    requires
        is_classification(p, s, dirty, c),
        firsts_increasing(in_both),
        forall|x: (usize, usize)| dirty.contains(x) <==> (in_both.contains(x) && pair_dirty(p, s, x)),
        0 <= k < in_both.len(),
        p[in_both[k].0 as int].metadata.size == s[in_both[k].1 as int].metadata.size,
        p[in_both[k].0 as int].metadata.last_modified == s[in_both[k].1 as int].metadata.last_modified,
    ensures
        forall|cat: Category| !(#[trigger] bucket(c, cat).contains(in_both[k].0)),
{
    assert forall|cat: Category| !(#[trigger] bucket(c, cat).contains(in_both[k].0)) by {
        if bucket(c, cat).contains(in_both[k].0) {
            let q = choose|q: int| 0 <= q < dirty.len() && #[trigger] dirty[q].0 == in_both[k].0;
            assert(dirty.contains(dirty[q]));
            let k2 = choose|k2: int| 0 <= k2 < in_both.len() && in_both[k2] == dirty[q];
            if k2 < k {
                assert(in_both[k2].0 < in_both[k].0);
            } else if k < k2 {
                assert(in_both[k].0 < in_both[k2].0);
            }
            assert(in_both[k2] == in_both[k]);
        }
    }
}

} // verus!
