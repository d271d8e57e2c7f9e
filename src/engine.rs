//! The engine: one run of one mode (generate, validate, fast refresh), as a state machine
//! whose steps take the results of the outside work (directory listing, manifest lines,
//! hashing outcomes) and decide what they mean.
use vstd::prelude::*;

use crate::constants::SMALL_FILE_SIZE_THRESHOLD;
use crate::dd_file_rw::{
    header_hash_type, line_views, manifest_parse, parse_dd_hash_type, manifest_render, pick, read_dd, records_match, write_dd,
    ManifestError,
};
use crate::directory_walker::{DirectoryWalker, WalkError};
use crate::engine_checks::{check_loaded, check_pairs, check_plan, plan_fits};
use crate::file_st::FileSt;
use crate::hash_calc_planner::{
    calculate_hashes, hashing_verdict, is_plan, plan_hashes, small_batch_verdict, small_verdict,
    HashOutcome, HashPlan, PlannerError,
};
use crate::hash_def::{hash_type_suffix_parse, hash_type_to_suffix, suffix_of, HashType};
use crate::reconcile::{
    all_loaded, classify_dirty, crosscheck, dirty_pairs, firsts, firsts_increasing,
    indices_in_range, is_classification, is_crosscheck, is_partition, pair_dirty, pairs_in_range,
    partition_by_path, propagate_hashes, strictly_increasing, Classification, Crosscheck,
    PathPartition,
};
use crate::text::{chars_of, push_all, string_of};

verus! {

broadcast use vstd::seq_lib::lemma_seq_contains_after_push;

/// The operating modes; an engine runs exactly one of them.
#[derive(Clone, Copy, Debug, PartialEq, Eq, Structural)]
pub enum Mode {
    Generate,
    Validate,
    FastRefresh,
    FullRefresh,
}

/// Why an engine step failed.
#[derive(Debug, PartialEq, Eq)]
pub enum EngineError {
    /// The engine already runs a mode.
    ModeAlreadySet,
    /// The directory walk gave no files.
    Walk(WalkError),
    /// The manifest file could not be read, with the reason given by the file system.
    ManifestRead(String),
    /// The manifest's content is not valid.
    Manifest(ManifestError),
    /// The hashing run gave no result.
    Hashing(PlannerError),
    /// Hashing outcomes were handed in while no hashing was pending.
    NoPendingHashing,
    /// The number of outcomes does not match the planned batches.
    OutcomeCountMismatch,
    /// The engine's own lists are inconsistent: a defect, not a user error.
    Internal,
    /// Full refresh has no defined behaviour.
    NotImplemented,
}

/// A run of one mode over a base directory and a manifest.
pub struct Engine {
    pub hash_type: HashType,
    pub dd_file_path: String,
    pub base_path: String,
    /// The local path separator.
    pub separator: char,
    pub mode: Option<Mode>,
    /// The hashing work handed out and not yet reported back.
    pub pending: Option<HashPlan>,
    /// The files found on disk (generate, fast refresh) or listed by the manifest (validate).
    pub primary_ds: Vec<FileSt>,
    /// The files listed by the manifest (fast refresh).
    pub secondary_ds: Vec<FileSt>,
    pub partition: PathPartition,
    /// Shared-path pairs whose metadata changed.
    pub dirty: Vec<(usize, usize)>,
    pub hashing_error_index: Vec<usize>,
    pub invalid_hash_index: Vec<usize>,
    pub classification: Classification,
    pub crosscheck: Crosscheck,
}

/// `e` is a freshly made engine for `hash_type`.
pub open spec fn is_fresh(e: Engine, hash_type: HashType) -> bool {
    &&& e.hash_type == hash_type
    &&& e.mode is None
    &&& e.pending is None
    &&& e.separator == '/'
    &&& e.primary_ds@.len() == 0
    &&& e.secondary_ds@.len() == 0
    &&& e.partition.only_primary@.len() == 0
    &&& e.partition.only_secondary@.len() == 0
    &&& e.partition.in_both@.len() == 0
    &&& e.dirty@.len() == 0
    &&& e.hashing_error_index@.len() == 0
    &&& e.invalid_hash_index@.len() == 0
    &&& e.classification.dirty_valid@.len() == 0
    &&& e.classification.invalid_hash@.len() == 0
    &&& e.classification.dirty_by_size@.len() == 0
    &&& e.classification.dirty_by_date@.len() == 0
    &&& e.classification.dirty_by_both@.len() == 0
    &&& e.crosscheck.found@.len() == 0
    &&& e.crosscheck.secondary_orphans@.len() == 0
    &&& e.crosscheck.secondary_orphans_with_duplicate@.len() == 0
    &&& e.crosscheck.primary_orphans@.len() == 0
}

/// `a` is `b` with perhaps another mode: no record, list or pending work changed.
pub open spec fn same_but_mode(a: Engine, b: Engine) -> bool {
    &&& a.hash_type == b.hash_type
    &&& a.dd_file_path == b.dd_file_path
    &&& a.base_path == b.base_path
    &&& a.separator == b.separator
    &&& a.pending == b.pending
    &&& a.primary_ds == b.primary_ds
    &&& a.secondary_ds == b.secondary_ds
    &&& a.partition == b.partition
    &&& a.dirty == b.dirty
    &&& a.hashing_error_index == b.hashing_error_index
    &&& a.invalid_hash_index == b.invalid_hash_index
    &&& a.classification == b.classification
    &&& a.crosscheck == b.crosscheck
}

fn empty_partition() -> (r: PathPartition)
    ensures
        r.only_primary@.len() == 0,
        r.only_secondary@.len() == 0,
        r.in_both@.len() == 0,
{
    PathPartition { only_primary: Vec::new(), only_secondary: Vec::new(), in_both: Vec::new() }
}

fn empty_classification() -> (r: Classification)
    ensures
        r.dirty_valid@.len() == 0,
        r.invalid_hash@.len() == 0,
        r.dirty_by_size@.len() == 0,
        r.dirty_by_date@.len() == 0,
        r.dirty_by_both@.len() == 0,
{
    Classification {
        dirty_valid: Vec::new(),
        invalid_hash: Vec::new(),
        dirty_by_size: Vec::new(),
        dirty_by_date: Vec::new(),
        dirty_by_both: Vec::new(),
    }
}

fn empty_crosscheck() -> (r: Crosscheck)
    ensures
        r.found@.len() == 0,
        r.secondary_orphans@.len() == 0,
        r.secondary_orphans_with_duplicate@.len() == 0,
        r.primary_orphans@.len() == 0,
{
    Crosscheck {
        found: Vec::new(),
        secondary_orphans: Vec::new(),
        secondary_orphans_with_duplicate: Vec::new(),
        primary_orphans: Vec::new(),
    }
}

fn copy_indices(v: &Vec<usize>) -> (r: Vec<usize>)
    ensures
        r@ == v@,
{
    let mut r: Vec<usize> = Vec::new();
    let mut k: usize = 0;
    while k < v.len()
        invariant
            k <= v@.len(),
            r@ == v@.subrange(0, k as int),
        decreases v@.len() - k,
    {
        r.push(v[k]);
        k = k + 1;
        assert(r@ =~= v@.subrange(0, k as int));
    }
    assert(v@.subrange(0, k as int) =~= v@);
    r
}

fn copy_plan(p: &HashPlan) -> (r: HashPlan)
    ensures
        r.small@ == p.small@,
        r.large@ == p.large@,
{
    HashPlan { small: copy_indices(&p.small), large: copy_indices(&p.large) }
}

/// The indices of the records with a calculated hash that differs from their loaded one.
pub fn invalid_hashes(files: &Vec<FileSt>) -> (r: Vec<usize>)
    ensures
        strictly_increasing(r@),
        forall|i: usize| r@.contains(i) <==> is_invalid_hash(files@, i),
{
    let mut r: Vec<usize> = Vec::new();
    let mut i: usize = 0;
    while i < files.len()
        invariant
            i <= files@.len(),
            strictly_increasing(r@),
            forall|q: int| 0 <= q < r@.len() ==> r@[q] < i,
            forall|x: usize| r@.contains(x) <==> (x < i && is_invalid_hash(files@, x)),
        decreases files@.len() - i,
    {
        match (&files[i].calculated_hash, &files[i].loaded_hash) {
            (Some(c), Some(l)) => {
                if !(*c == *l) {
                    r.push(i);
                }
            },
            _ => {},
        }
        i = i + 1;
    }
    r
}

/// Record `i` was hashed and the result differs from the hash the manifest recorded.
pub open spec fn is_invalid_hash(files: Seq<FileSt>, i: usize) -> bool {
    &&& i < files.len()
    &&& files[i as int].calculated_hash is Some
    &&& files[i as int].loaded_hash is Some
    &&& files[i as int].calculated_hash->0.bytes@ != files[i as int].loaded_hash->0.bytes@
}

/// `x` is the primary side of a shared-path pair whose metadata did not change.
pub open spec fn is_clean_first(p: Seq<FileSt>, s: Seq<FileSt>, pairs: Seq<(usize, usize)>, x: int) -> bool {
    exists|k: int| 0 <= k < pairs.len() && #[trigger] pairs[k].0 == x && !pair_dirty(p, s, pairs[k])
}

/// The facts about the engine's lists that the end of a run relies on.
pub open spec fn is_ready(e: Engine) -> bool {
    &&& e.pending is Some
    &&& plan_fits(e.pending->0, e.primary_ds@.len() as int)
    &&& pairs_in_range(e.primary_ds@, e.secondary_ds@, e.partition.in_both@)
    &&& firsts_increasing(e.partition.in_both@)
    &&& pairs_in_range(e.primary_ds@, e.secondary_ds@, e.dirty@)
    &&& firsts_increasing(e.dirty@)
    &&& indices_in_range(e.partition.only_primary@, e.primary_ds@.len() as int)
    &&& indices_in_range(e.partition.only_secondary@, e.secondary_ds@.len() as int)
    &&& all_loaded(e.secondary_ds@)
}

/// The last `.`-separated part of a file name (the whole name if it has no dot).
pub open spec fn last_segment(s: Seq<char>) -> Seq<char>
    decreases s.len(),
{
    if s.len() == 0 {
        s
    } else if s.last() == '.' {
        Seq::empty()
    } else {
        last_segment(s.drop_last()).push(s.last())
    }
}

/// Relies on chrono's `Local::now` and `DateTime::to_rfc3339`: the local time now as RFC 3339
/// text. It changes from call to call, so nothing is stated of it.
#[verifier::external_body]
fn local_now_rfc3339() -> (r: String) {
    chrono::Local::now().to_rfc3339()
}

/// Relies on chrono's `Local::now` and `DateTime::format` with `%Y-%m-%d_%H-%M`: the local
/// time now as a file-name stamp. It changes from call to call, so nothing is stated of it.
#[verifier::external_body]
fn local_now_file_stamp() -> (r: String) {
    chrono::Local::now().format("%Y-%m-%d_%H-%M").to_string()
}

/// A fresh engine for `hash_type`.
pub fn create_engine(hash_type: HashType) -> (r: Engine)
    ensures
        is_fresh(r, hash_type),
{
    Engine::new(hash_type)
}

/// The hash algorithm that a manifest's file-name suffix (its last `.` part) names.
pub fn dd_filename_to_hash_type(filename: &str) -> (r: Option<HashType>)
    ensures
        r == (if last_segment(filename@) == "ddmd5"@ {
            Some(HashType::MD5)
        } else {
            None::<HashType>
        }),
{
    let s = chars_of(filename);
    let mut k: usize = s.len();
    assert(s@.subrange(0, k as int) =~= s@);
    assert(last_segment(s@) + s@.subrange(k as int, k as int) =~= last_segment(s@));
    while k > 0 && s[k - 1] != '.'
        invariant
            k <= s@.len(),
            forall|q: int| k <= q < s@.len() ==> s@[q] != '.',
            last_segment(s@) == last_segment(s@.subrange(0, k as int)) + s@.subrange(
                k as int,
                s@.len() as int,
            ),
        decreases k,
    {
        let ghost pre = s@.subrange(0, k as int);
        assert(pre.drop_last() =~= s@.subrange(0, k - 1));
        assert(s@.subrange(k - 1, s@.len() as int) =~= seq![pre.last()] + s@.subrange(
            k as int,
            s@.len() as int,
        ));
        assert(last_segment(pre) == last_segment(pre.drop_last()).push(pre.last()));
        assert(last_segment(pre.drop_last()).push(pre.last()) + s@.subrange(k as int, s@.len() as int)
            =~= last_segment(pre.drop_last()) + s@.subrange(k - 1, s@.len() as int));
        k = k - 1;
    }
    assert(last_segment(s@.subrange(0, k as int)) =~= Seq::<char>::empty());
    assert(Seq::<char>::empty() + s@.subrange(k as int, s@.len() as int) =~= s@.subrange(
        k as int,
        s@.len() as int,
    ));
    let seg = crate::text::slice_chars(&s, k, s.len());
    let seg_s = string_of(&seg);
    hash_type_suffix_parse(seg_s.as_str())
}

/// The algorithm named by the suffix of a manifest's file name.
pub open spec fn suffix_hash_type(filename: Seq<char>) -> Option<HashType> {
    if last_segment(filename) == "ddmd5"@ {
        Some(HashType::MD5)
    } else {
        None
    }
}

/// The hash algorithm of a manifest: from its file-name suffix, or else from the `Hash:` line
/// of its content, when the content could be read.
pub fn infer_hash_type(filename: &str, manifest: Option<&Vec<String>>) -> (r: Option<HashType>)
    ensures
        r == (match suffix_hash_type(filename@) {
            Some(t) => Some(t),
            None => match manifest {
                Some(lines) => header_hash_type(line_views(lines@)),
                None => None,
            },
        }),
{
    match dd_filename_to_hash_type(filename) {
        Some(t) => Some(t),
        None => match manifest {
            Some(lines) => parse_dd_hash_type(lines),
            None => None,
        },
    }
}

/// The counts of a fast-refresh report: content found or unchanged, changes to look at, and
/// errors.
pub open spec fn refresh_summary(e: Engine) -> (int, int, int) {
    (
        e.crosscheck.found@.len() as int + e.classification.dirty_valid@.len(),
        e.classification.dirty_by_date@.len() as int + e.classification.dirty_by_size@.len()
            + e.classification.dirty_by_both@.len() + e.crosscheck.secondary_orphans@.len()
            + e.crosscheck.primary_orphans@.len()
            + e.crosscheck.secondary_orphans_with_duplicate@.len(),
        e.classification.invalid_hash@.len() as int + e.hashing_error_index@.len(),
    )
}

impl Engine {
    pub fn new(hash_type: HashType) -> (r: Engine)
        ensures
            is_fresh(r, hash_type),
    {
        Engine {
            hash_type,
            dd_file_path: String::new(),
            base_path: String::new(),
            separator: '/',
            mode: None,
            pending: None,
            primary_ds: Vec::new(),
            secondary_ds: Vec::new(),
            partition: empty_partition(),
            dirty: Vec::new(),
            hashing_error_index: Vec::new(),
            invalid_hash_index: Vec::new(),
            classification: empty_classification(),
            crosscheck: empty_crosscheck(),
        }
    }

    pub fn set_paths(&mut self, dd_file_path: String, dir_path: String)
        ensures
            final(self).dd_file_path@ == dd_file_path@,
            final(self).base_path@ == dir_path@,
            final(self).mode == old(self).mode,
            final(self).pending == old(self).pending,
            final(self).separator == old(self).separator,
            final(self).hash_type == old(self).hash_type,
    {
        self.dd_file_path = dd_file_path;
        self.base_path = dir_path;
    }

    /// Sets the local path separator, to which manifest paths are rewritten.
    pub fn set_separator(&mut self, sep: char)
        ensures
            final(self).separator == sep,
            final(self).mode == old(self).mode,
            final(self).base_path == old(self).base_path,
    {
        self.separator = sep;
    }

    /// Starts generating a manifest from the listing of the base directory; returns the
    /// hashing to be done: every file.
    pub fn start_generate(&mut self, listing: Result<Vec<FileSt>, String>) -> (r: Result<
        HashPlan,
        EngineError,
    >)
        ensures
            old(self).mode is Some ==> r == Err::<HashPlan, EngineError>(EngineError::ModeAlreadySet)
                && *final(self) == *old(self),
            old(self).mode is None ==> final(self).mode == Some(Mode::Generate),
            old(self).mode is None && r is Err ==> same_but_mode(*final(self), *old(self)),
            old(self).mode is None && listing is Err ==> r == Err::<HashPlan, EngineError>(
                EngineError::Walk(WalkError::Io(listing->Err_0)),
            ),
            old(self).mode is None && listing is Ok && listing->Ok_0@.len() == 0 ==> r == Err::<
                HashPlan,
                EngineError,
            >(EngineError::Walk(WalkError::NoFiles)),
            old(self).mode is None && listing is Ok && listing->Ok_0@.len() > 0 ==> {
                &&& r is Ok
                &&& final(self).primary_ds@ == listing->Ok_0@
                &&& is_plan(final(self).primary_ds@, SMALL_FILE_SIZE_THRESHOLD, None, r->Ok_0)
                &&& final(self).pending matches Some(p) && p.small@ == r->Ok_0.small@ && p.large@
                    == r->Ok_0.large@
                &&& is_ready(*final(self))
            },
    {
        if self.mode.is_some() {
            return Err(EngineError::ModeAlreadySet);
        }
        self.mode = Some(Mode::Generate);
        let mut walker = DirectoryWalker::new(self.base_path.clone());
        match walker.walk(listing) {
            Err(e) => {
                return Err(EngineError::Walk(e));
            },
            Ok(()) => {},
        }
        let primary = walker.into_files();
        let plan = plan_hashes(&primary, SMALL_FILE_SIZE_THRESHOLD, None);
        proof {
            crate::hash_calc_planner::lemma_plan_fits(primary@, SMALL_FILE_SIZE_THRESHOLD, None, plan);
        }
        let out = copy_plan(&plan);
        self.primary_ds = primary;
        self.secondary_ds = Vec::new();
        self.partition = empty_partition();
        self.dirty = Vec::new();
        self.pending = Some(plan);
        Ok(out)
    }

    /// Starts validating the manifest, given its lines, against the files it lists; returns
    /// the hashing to be done: every listed file.
    pub fn start_validate(&mut self, manifest: Result<Vec<String>, String>) -> (r: Result<
        HashPlan,
        EngineError,
    >)
        ensures
            old(self).mode is Some ==> r == Err::<HashPlan, EngineError>(EngineError::ModeAlreadySet)
                && *final(self) == *old(self),
            old(self).mode is None ==> final(self).mode == Some(Mode::Validate),
            old(self).mode is None && r is Err ==> same_but_mode(*final(self), *old(self)),
            old(self).mode is None && manifest is Err ==> r == Err::<HashPlan, EngineError>(
                EngineError::ManifestRead(manifest->Err_0),
            ),
            old(self).mode is None && manifest is Ok ==> match manifest_parse(
                line_views(manifest->Ok_0@),
                old(self).base_path@,
                old(self).separator,
            ) {
                Err(e) => r == Err::<HashPlan, EngineError>(EngineError::Manifest(e)),
                Ok(es) => {
                    &&& r is Ok
                    &&& records_match(final(self).primary_ds@, es)
                    &&& is_plan(final(self).primary_ds@, SMALL_FILE_SIZE_THRESHOLD, None, r->Ok_0)
                    &&& final(self).pending matches Some(p) && p.small@ == r->Ok_0.small@
                        && p.large@ == r->Ok_0.large@
                    &&& is_ready(*final(self))
                },
            },
    {
        if self.mode.is_some() {
            return Err(EngineError::ModeAlreadySet);
        }
        self.mode = Some(Mode::Validate);
        let lines = match manifest {
            Err(e) => {
                return Err(EngineError::ManifestRead(e));
            },
            Ok(l) => l,
        };
        let primary = match read_dd(&lines, self.base_path.as_str(), self.separator) {
            Err(e) => {
                return Err(EngineError::Manifest(e));
            },
            Ok(v) => v,
        };
        let plan = plan_hashes(&primary, SMALL_FILE_SIZE_THRESHOLD, None);
        proof {
            crate::hash_calc_planner::lemma_plan_fits(primary@, SMALL_FILE_SIZE_THRESHOLD, None, plan);
        }
        let out = copy_plan(&plan);
        self.primary_ds = primary;
        self.secondary_ds = Vec::new();
        self.partition = empty_partition();
        self.dirty = Vec::new();
        self.pending = Some(plan);
        Ok(out)
    }

    /// Starts a fast refresh: the listing of the base directory (primary) is reconciled with
    /// the manifest's lines (secondary) by path; returns the hashing to be done: the files
    /// only on disk and the disk side of the shared paths whose metadata changed.
    pub fn start_fast_refresh(
        &mut self,
        listing: Result<Vec<FileSt>, String>,
        manifest: Result<Vec<String>, String>,
    ) -> (r: Result<HashPlan, EngineError>)
        ensures
            old(self).mode is Some ==> r == Err::<HashPlan, EngineError>(EngineError::ModeAlreadySet)
                && *final(self) == *old(self),
            old(self).mode is None ==> final(self).mode == Some(Mode::FastRefresh),
            old(self).mode is None && r is Err ==> same_but_mode(*final(self), *old(self)),
            old(self).mode is None && listing is Err ==> r == Err::<HashPlan, EngineError>(
                EngineError::Walk(WalkError::Io(listing->Err_0)),
            ),
            old(self).mode is None && listing is Ok && listing->Ok_0@.len() == 0 ==> r == Err::<
                HashPlan,
                EngineError,
            >(EngineError::Walk(WalkError::NoFiles)),
            old(self).mode is None && listing is Ok && listing->Ok_0@.len() > 0 && manifest is Err
                ==> r == Err::<HashPlan, EngineError>(EngineError::ManifestRead(manifest->Err_0)),
            old(self).mode is None && listing is Ok && listing->Ok_0@.len() > 0 && manifest is Ok
                ==> match manifest_parse(
                line_views(manifest->Ok_0@),
                old(self).base_path@,
                old(self).separator,
            ) {
                Err(e) => r == Err::<HashPlan, EngineError>(EngineError::Manifest(e)),
                Ok(es) => {
                    let f = *final(self);
                    &&& r is Ok
                    &&& f.primary_ds@ == listing->Ok_0@
                    &&& records_match(f.secondary_ds@, es)
                    &&& is_partition(f.primary_ds@, f.secondary_ds@, f.partition)
                    &&& forall|x: (usize, usize)|
                        f.dirty@.contains(x) <==> (f.partition.in_both@.contains(x) && pair_dirty(
                            f.primary_ds@,
                            f.secondary_ds@,
                            x,
                        ))
                    &&& is_plan(
                        f.primary_ds@,
                        SMALL_FILE_SIZE_THRESHOLD,
                        Some(f.partition.only_primary@ + firsts(f.dirty@)),
                        r->Ok_0,
                    )
                    &&& f.pending matches Some(p) && p.small@ == r->Ok_0.small@ && p.large@
                        == r->Ok_0.large@
                    &&& is_ready(f)
                },
            },
    {
        if self.mode.is_some() {
            return Err(EngineError::ModeAlreadySet);
        }
        self.mode = Some(Mode::FastRefresh);
        let mut walker = DirectoryWalker::new(self.base_path.clone());
        match walker.walk(listing) {
            Err(e) => {
                return Err(EngineError::Walk(e));
            },
            Ok(()) => {},
        }
        let primary = walker.into_files();
        let lines = match manifest {
            Err(e) => {
                return Err(EngineError::ManifestRead(e));
            },
            Ok(l) => l,
        };
        let secondary = match read_dd(&lines, self.base_path.as_str(), self.separator) {
            Err(e) => {
                return Err(EngineError::Manifest(e));
            },
            Ok(v) => v,
        };
        let part = partition_by_path(&primary, &secondary);
        proof {
            crate::reconcile::lemma_partition_ranges(primary@, secondary@, part);
        }
        let dirty = dirty_pairs(&primary, &secondary, &part.in_both);
        let mut work = copy_indices(&part.only_primary);
        let mut k: usize = 0;
        while k < dirty.len()
            invariant
                k <= dirty@.len(),
                work@ == part.only_primary@ + firsts(dirty@.subrange(0, k as int)),
            decreases dirty@.len() - k,
        {
            work.push(dirty[k].0);
            k = k + 1;
            assert(firsts(dirty@.subrange(0, k as int)) =~= firsts(dirty@.subrange(0, k - 1)).push(
                dirty@[k - 1].0,
            ));
        }
        assert(dirty@.subrange(0, k as int) =~= dirty@);
        let ghost work_v = work@;
        let plan = plan_hashes(&primary, SMALL_FILE_SIZE_THRESHOLD, Some(work));
        proof {
            crate::hash_calc_planner::lemma_plan_fits(
                primary@,
                SMALL_FILE_SIZE_THRESHOLD,
                Some(work_v),
                plan,
            );
            assert forall|q: int| 0 <= q < secondary@.len() implies (#[trigger] secondary@[q]).loaded_hash is Some by {
            }
        }
        let out = copy_plan(&plan);
        self.primary_ds = primary;
        self.secondary_ds = secondary;
        self.partition = part;
        self.dirty = dirty;
        self.pending = Some(plan);
        Ok(out)
    }

    /// Full refresh has no defined behaviour: the mode is taken and the step fails.
    pub fn start_full_refresh(&mut self) -> (r: Result<(), EngineError>)
        ensures
            old(self).mode is Some ==> r == Err::<(), EngineError>(EngineError::ModeAlreadySet)
                && *final(self) == *old(self),
            old(self).mode is None ==> r == Err::<(), EngineError>(EngineError::NotImplemented)
                && final(self).mode == Some(Mode::FullRefresh),
    {
        if self.mode.is_some() {
            return Err(EngineError::ModeAlreadySet);
        }
        self.mode = Some(Mode::FullRefresh);
        Err(EngineError::NotImplemented)
    }

    fn check_ready(&self) -> (r: bool)
        ensures
            r == is_ready(*self),
    {
        match &self.pending {
            None => false,
            Some(plan) => {
                check_plan(plan, self.primary_ds.len()) && check_pairs(
                    &self.partition.in_both,
                    &self.primary_ds,
                    &self.secondary_ds,
                ) && check_pairs(&self.dirty, &self.primary_ds, &self.secondary_ds)
                    && check_increasing_or_range(&self.partition.only_primary, self.primary_ds.len())
                    && check_increasing_or_range(
                    &self.partition.only_secondary,
                    self.secondary_ds.len(),
                ) && check_loaded(&self.secondary_ds)
            },
        }
    }

    /// Takes the outcomes of the pending hashing: the small batch's, whether cancellation
    /// was seen once it was done, and the large batch's. Then finishes the mode: validation
    /// lists the files whose content changed; fast refresh gives the unchanged shared files
    /// the manifest's hash, classifies the changed ones, and cross-checks the rest by content.
    pub fn finish_hashing(
        &mut self,
        small_outcomes: &Vec<HashOutcome>,
        interrupted: bool,
        large_outcomes: &Vec<HashOutcome>,
    ) -> (r: Result<(), EngineError>)
        ensures
            old(self).pending is None ==> r == Err::<(), EngineError>(EngineError::NoPendingHashing)
                && *final(self) == *old(self),
            old(self).pending matches Some(plan) && (plan.small@.len() != small_outcomes@.len()
                || plan.large@.len() != large_outcomes@.len()) ==> r == Err::<(), EngineError>(
                EngineError::OutcomeCountMismatch,
            ) && *final(self) == *old(self),
            old(self).pending matches Some(plan) && plan.small@.len() == small_outcomes@.len()
                && plan.large@.len() == large_outcomes@.len() && !is_ready(*old(self)) ==> r
                == Err::<(), EngineError>(EngineError::Internal) && *final(self) == *old(self),
            old(self).pending is Some && old(self).pending->0.small@.len() == small_outcomes@.len()
                && old(self).pending->0.large@.len() == large_outcomes@.len() && is_ready(*old(self))
                ==> {
                let plan = old(self).pending->0;
                let f = *final(self);
                let o = *old(self);
                let verdict = hashing_verdict(
                    plan.small@,
                    small_outcomes@,
                    interrupted,
                    plan.large@,
                    large_outcomes@,
                );
                &&& f.pending is None
                &&& f.mode == o.mode
                &&& f.secondary_ds@ == o.secondary_ds@
                &&& f.partition == o.partition
                &&& f.dirty@ == o.dirty@
                &&& f.primary_ds@.len() == o.primary_ds@.len()
                &&& forall|x: int|
                    0 <= x < o.primary_ds@.len() ==> {
                        &&& (#[trigger] f.primary_ds@[x]).path == o.primary_ds@[x].path
                        &&& f.primary_ds@[x].loaded_hash == o.primary_ds@[x].loaded_hash
                        &&& f.primary_ds@[x].metadata == o.primary_ds@[x].metadata
                    }
                &&& forall|k: int|
                    0 <= k < plan.small@.len() && !is_clean_first(
                        o.primary_ds@,
                        o.secondary_ds@,
                        o.partition.in_both@,
                        plan.small@[k] as int,
                    ) ==> (#[trigger] small_outcomes@[k] matches HashOutcome::Hashed(h)
                        ==> f.primary_ds@[plan.small@[k] as int].calculated_hash == Some(h))
                &&& small_verdict(plan.small@, small_outcomes@) is Ok && !interrupted ==> forall|k: int|
                    0 <= k < plan.large@.len() && !is_clean_first(
                        o.primary_ds@,
                        o.secondary_ds@,
                        o.partition.in_both@,
                        plan.large@[k] as int,
                    ) ==> (#[trigger] large_outcomes@[k] matches HashOutcome::Hashed(h)
                        ==> f.primary_ds@[plan.large@[k] as int].calculated_hash == Some(h))
                &&& forall|x: int|
                    0 <= x < o.primary_ds@.len() && (#[trigger] f.primary_ds@[x]).calculated_hash
                        != o.primary_ds@[x].calculated_hash ==> (exists|k: int|
                        0 <= k < plan.small@.len() && plan.small@[k] == x
                            && #[trigger] small_outcomes@[k] is Hashed) || (exists|k: int|
                        0 <= k < plan.large@.len() && plan.large@[k] == x
                            && #[trigger] large_outcomes@[k] is Hashed) || (o.mode == Some(
                        Mode::FastRefresh,
                    ) && is_clean_first(o.primary_ds@, o.secondary_ds@, o.partition.in_both@, x))
                &&& match verdict {
                    Err(e) => r == Err::<(), EngineError>(EngineError::Hashing(e)),
                    Ok(failed) => {
                        &&& r is Ok
                        &&& f.hashing_error_index@ == (match failed {
                            Some(v) => v,
                            None => Seq::<usize>::empty(),
                        })
                        &&& o.mode == Some(Mode::Validate) ==> strictly_increasing(
                            f.invalid_hash_index@,
                        ) && forall|i: usize|
                            f.invalid_hash_index@.contains(i) <==> is_invalid_hash(
                                f.primary_ds@,
                                i,
                            )
                        &&& o.mode == Some(Mode::FastRefresh) ==> {
                            &&& forall|k: int|
                                0 <= k < f.partition.in_both@.len() && !pair_dirty(
                                    f.primary_ds@,
                                    f.secondary_ds@,
                                    #[trigger] f.partition.in_both@[k],
                                ) ==> f.primary_ds@[f.partition.in_both@[k].0 as int].calculated_hash
                                    == f.secondary_ds@[f.partition.in_both@[k].1 as int].loaded_hash
                            &&& is_classification(
                                f.primary_ds@,
                                f.secondary_ds@,
                                f.dirty@,
                                f.classification,
                            )
                            &&& is_crosscheck(
                                f.primary_ds@,
                                f.secondary_ds@,
                                f.partition.only_primary@,
                                f.partition.only_secondary@,
                                f.crosscheck,
                            )
                        }
                    },
                }
            },
    {
        let plan = match &self.pending {
            None => {
                return Err(EngineError::NoPendingHashing);
            },
            Some(p) => copy_plan(p),
        };
        if plan.small.len() != small_outcomes.len() || plan.large.len() != large_outcomes.len() {
            return Err(EngineError::OutcomeCountMismatch);
        }
        if !self.check_ready() {
            return Err(EngineError::Internal);
        }
        let ghost o = *self;
        self.pending = None;
        let res = calculate_hashes(
            &mut self.primary_ds,
            &plan,
            small_outcomes,
            interrupted,
            large_outcomes,
        );
        let ghost hashed = self.primary_ds@;
        let failed = match res {
            Err(e) => {
                return Err(EngineError::Hashing(e));
            },
            Ok(None) => Vec::new(),
            Ok(Some(v)) => v,
        };
        self.hashing_error_index = failed;
        match self.mode {
            Some(Mode::Validate) => {
                self.invalid_hash_index = invalid_hashes(&self.primary_ds);
            },
            Some(Mode::FastRefresh) => {
                propagate_hashes(&mut self.primary_ds, &self.secondary_ds, &self.partition.in_both);
                proof {
                    assert forall|k: int|
                        0 <= k < plan.small@.len() && !is_clean_first(
                            o.primary_ds@,
                            o.secondary_ds@,
                            o.partition.in_both@,
                            plan.small@[k] as int,
                        ) implies (#[trigger] small_outcomes@[k] matches HashOutcome::Hashed(h)
                            ==> self.primary_ds@[plan.small@[k] as int].calculated_hash == Some(h)) by {
                        let x = plan.small@[k] as int;
                        if self.primary_ds@[x].calculated_hash != hashed[x].calculated_hash {
                            let q = choose|q: int|
                                0 <= q < o.partition.in_both@.len() && #[trigger] o.partition.in_both@[q].0 == x
                                    && !pair_dirty(hashed, o.secondary_ds@, o.partition.in_both@[q]);
                            assert(!pair_dirty(o.primary_ds@, o.secondary_ds@, o.partition.in_both@[q]));
                        }
                    }
                    assert forall|k: int|
                        0 <= k < plan.large@.len() && !is_clean_first(
                            o.primary_ds@,
                            o.secondary_ds@,
                            o.partition.in_both@,
                            plan.large@[k] as int,
                        ) implies (#[trigger] large_outcomes@[k] matches HashOutcome::Hashed(h)
                            ==> self.primary_ds@[plan.large@[k] as int].calculated_hash == Some(h)) by {
                        let x = plan.large@[k] as int;
                        if self.primary_ds@[x].calculated_hash != hashed[x].calculated_hash {
                            let q = choose|q: int|
                                0 <= q < o.partition.in_both@.len() && #[trigger] o.partition.in_both@[q].0 == x
                                    && !pair_dirty(hashed, o.secondary_ds@, o.partition.in_both@[q]);
                            assert(!pair_dirty(o.primary_ds@, o.secondary_ds@, o.partition.in_both@[q]));
                        }
                    }
                    assert forall|x: int|
                        0 <= x < o.primary_ds@.len() && (#[trigger] self.primary_ds@[x]).calculated_hash
                            != o.primary_ds@[x].calculated_hash implies (exists|k: int|
                            0 <= k < plan.small@.len() && plan.small@[k] == x
                                && #[trigger] small_outcomes@[k] is Hashed) || (exists|k: int|
                            0 <= k < plan.large@.len() && plan.large@[k] == x
                                && #[trigger] large_outcomes@[k] is Hashed) || (o.mode == Some(
                            Mode::FastRefresh,
                        ) && is_clean_first(o.primary_ds@, o.secondary_ds@, o.partition.in_both@, x)) by {
                        if self.primary_ds@[x].calculated_hash != hashed[x].calculated_hash {
                            let q = choose|q: int|
                                0 <= q < o.partition.in_both@.len() && #[trigger] o.partition.in_both@[q].0 == x
                                    && !pair_dirty(hashed, o.secondary_ds@, o.partition.in_both@[q]);
                            assert(!pair_dirty(o.primary_ds@, o.secondary_ds@, o.partition.in_both@[q]));
                        } else {
                            assert(hashed[x].calculated_hash != o.primary_ds@[x].calculated_hash);
                        }
                    }
                }
                self.classification = classify_dirty(&self.primary_ds, &self.secondary_ds, &self.dirty);
                self.crosscheck = crosscheck(
                    &self.primary_ds,
                    &self.secondary_ds,
                    &self.partition.only_primary,
                    &self.partition.only_secondary,
                );
            },
            _ => {},
        }
        Ok(())
    }

    /// Decides, once the small batch of the pending hashing is done, whether the large batch
    /// is to be run: not when cancellation was seen or every small file failed.
    pub fn check_small_batch(&self, small_outcomes: &Vec<HashOutcome>) -> (r: Result<(), EngineError>)
        ensures
            self.pending is None ==> r == Err::<(), EngineError>(EngineError::NoPendingHashing),
            self.pending matches Some(plan) && plan.small@.len() != small_outcomes@.len() ==> r
                == Err::<(), EngineError>(EngineError::OutcomeCountMismatch),
            self.pending is Some && self.pending->0.small@.len() == small_outcomes@.len() ==> match small_verdict(
                self.pending->0.small@,
                small_outcomes@,
            ) {
                Ok(()) => r is Ok,
                Err(e) => r == Err::<(), EngineError>(EngineError::Hashing(e)),
            },
    {
        match &self.pending {
            None => Err(EngineError::NoPendingHashing),
            Some(plan) => {
                if plan.small.len() != small_outcomes.len() {
                    return Err(EngineError::OutcomeCountMismatch);
                }
                match small_batch_verdict(&plan.small, small_outcomes) {
                    Ok(()) => Ok(()),
                    Err(e) => Err(EngineError::Hashing(e)),
                }
            },
        }
    }

    /// The three counts of the fast-refresh report (found or unchanged content, warnings,
    /// errors), each capped at the largest `usize`.
    pub fn fast_refresh_summary(&self) -> (r: (usize, usize, usize))
        ensures
            r.0 == min_usize(refresh_summary(*self).0),
            r.1 == min_usize(refresh_summary(*self).1),
            r.2 == min_usize(refresh_summary(*self).2),
    {
        let c = &self.classification;
        let x = &self.crosscheck;
        let ok = x.found.len().saturating_add(c.dirty_valid.len());
        let mut warning: usize = c.dirty_by_date.len();
        warning = warning.saturating_add(c.dirty_by_size.len());
        warning = warning.saturating_add(c.dirty_by_both.len());
        warning = warning.saturating_add(x.secondary_orphans.len());
        warning = warning.saturating_add(x.primary_orphans.len());
        warning = warning.saturating_add(x.secondary_orphans_with_duplicate.len());
        let error = c.invalid_hash.len().saturating_add(self.hashing_error_index.len());
        (ok, warning, error)
    }

    /// The indices of the records to persist: all but those that failed to hash.
    pub fn persisted_indices(&self) -> (r: Vec<usize>)
        ensures
            is_persisted_order(*self, r@),
    {
        let n = self.primary_ds.len();
        let mut r: Vec<usize> = Vec::new();
        let mut i: usize = 0;
        while i < n
            invariant
                n == self.primary_ds@.len(),
                i <= n,
                strictly_increasing(r@),
                forall|q: int| 0 <= q < r@.len() ==> r@[q] < i,
                forall|x: usize|
                    r@.contains(x) <==> (x < i && !self.hashing_error_index@.contains(x)),
            decreases n - i,
        {
            if !contains_index(&self.hashing_error_index, i) {
                r.push(i);
            }
            i = i + 1;
        }
        r
    }

    /// The manifest lines of the records that did not fail to hash, stamped `generated_at`.
    pub fn manifest_lines(&self, generated_at: &str) -> (r: Result<Vec<String>, ManifestError>)
        ensures
            exists|order: Seq<usize>|
                is_persisted_order(*self, order) && match (
                    r,
                    manifest_render(
                        pick(self.primary_ds@, order),
                        self.base_path@,
                        generated_at@,
                        self.separator,
                    ),
                ) {
                    (Ok(v), Ok(w)) => line_views(v@) == w,
                    (Err(e), Err(f)) => e == f,
                    _ => false,
                },
    {
        let order = self.persisted_indices();
        assert forall|k: int| 0 <= k < order@.len() implies #[trigger] order@[k] < self.primary_ds@.len() by {
            assert(order@.contains(order@[k]));
        }
        write_dd(&self.primary_ds, &order, self.base_path.as_str(), generated_at, self.separator)
    }

    /// The manifest lines of the records that did not fail to hash, stamped with the local
    /// time now.
    pub fn save_dd_file(&self) -> (r: Result<Vec<String>, ManifestError>)
        ensures
            exists|order: Seq<usize>, stamp: Seq<char>|
                #![trigger manifest_render(pick(self.primary_ds@, order), self.base_path@, stamp, self.separator)]
                is_persisted_order(*self, order) && match (
                    r,
                    manifest_render(
                        pick(self.primary_ds@, order),
                        self.base_path@,
                        stamp,
                        self.separator,
                    ),
                ) {
                    (Ok(v), Ok(w)) => line_views(v@) == w,
                    (Err(e), Err(f)) => e == f,
                    _ => false,
                },
    {
        let now = local_now_rfc3339();
        self.manifest_lines(now.as_str())
    }

    /// The manifest file name for the time stamp `stamp`: `<stamp>.<suffix>`.
    pub fn manifest_file_name_at(&self, stamp: &str) -> (r: String)
        ensures
            r@ == stamp@ + "."@ + suffix_of(self.hash_type),
    {
        let mut v = chars_of(stamp);
        let dot = chars_of(".");
        push_all(&mut v, &dot);
        let suffix = chars_of(hash_type_to_suffix(&self.hash_type));
        push_all(&mut v, &suffix);
        string_of(&v)
    }

    /// A manifest file name stamped with the local time now: `<stamp>.<suffix>`.
    pub fn manifest_file_name(&self) -> (r: String)
        ensures
            exists|stamp: Seq<char>| r@ == stamp + "."@ + suffix_of(self.hash_type),
    {
        let stamp = local_now_file_stamp();
        self.manifest_file_name_at(stamp.as_str())
    }

    /// The manifest file name used when no directory is given: `digest.<suffix>`.
    pub fn default_manifest_name(&self) -> (r: String)
        ensures
            r@ == "digest."@ + suffix_of(self.hash_type),
    {
        let mut v = chars_of("digest.");
        let suffix = chars_of(hash_type_to_suffix(&self.hash_type));
        push_all(&mut v, &suffix);
        string_of(&v)
    }

    pub fn event_count_generate(&self) -> (r: usize)
        ensures
            r == self.hashing_error_index@.len(),
    {
        self.hashing_error_index.len()
    }

    pub fn event_count_validate(&self) -> (r: usize)
        ensures
            r == min_usize(self.hashing_error_index@.len() + self.invalid_hash_index@.len() as int),
    {
        self.hashing_error_index.len().saturating_add(self.invalid_hash_index.len())
    }

    /// Every noteworthy outcome of a fast refresh: hashing errors, changed content, changed
    /// metadata with unchanged content, orphans on both sides, and found content (one per
    /// hash).
    pub fn event_count_fast_refresh(&self) -> (r: usize)
        ensures
            r == min_usize(fast_refresh_events(*self)),
    {
        let c = &self.classification;
        let x = &self.crosscheck;
        let mut n: usize = self.hashing_error_index.len();
        n = n.saturating_add(c.invalid_hash.len());
        n = n.saturating_add(c.dirty_by_date.len());
        n = n.saturating_add(c.dirty_by_size.len());
        n = n.saturating_add(c.dirty_by_both.len());
        n = n.saturating_add(c.dirty_valid.len());
        n = n.saturating_add(x.secondary_orphans.len());
        n = n.saturating_add(x.primary_orphans.len());
        n = n.saturating_add(x.secondary_orphans_with_duplicate.len());
        n = n.saturating_add(x.found.len());
        n
    }

    /// Full refresh has no defined behaviour and reports nothing.
    pub fn event_count_full_refresh(&self) -> (r: usize)
        ensures
            r == 0,
    {
        0
    }
}

/// `n` capped at the largest `usize`.
pub open spec fn min_usize(n: int) -> int {
    if n > usize::MAX {
        usize::MAX as int
    } else {
        n
    }
}

pub open spec fn fast_refresh_events(e: Engine) -> int {
    e.hashing_error_index@.len() as int + e.classification.invalid_hash@.len()
        + e.classification.dirty_by_date@.len() + e.classification.dirty_by_size@.len()
        + e.classification.dirty_by_both@.len() + e.classification.dirty_valid@.len()
        + e.crosscheck.secondary_orphans@.len() + e.crosscheck.primary_orphans@.len()
        + e.crosscheck.secondary_orphans_with_duplicate@.len() + e.crosscheck.found@.len()
}

/// `order` lists, increasingly, every record of the engine that did not fail to hash.
pub open spec fn is_persisted_order(e: Engine, order: Seq<usize>) -> bool {
    &&& strictly_increasing(order)
    &&& forall|x: usize|
        order.contains(x) <==> (x < e.primary_ds@.len() && !e.hashing_error_index@.contains(x))
}

fn contains_index(v: &Vec<usize>, x: usize) -> (r: bool)
    ensures
        r == v@.contains(x),
{
    let mut k: usize = 0;
    while k < v.len()
        invariant
            k <= v@.len(),
            forall|q: int| 0 <= q < k ==> v@[q] != x,
        decreases v@.len() - k,
    {
        if v[k] == x {
            return true;
        }
        k = k + 1;
    }
    false
}

fn check_increasing_or_range(v: &Vec<usize>, n: usize) -> (r: bool)
    ensures
        r == indices_in_range(v@, n as int),
{
    let mut k: usize = 0;
    while k < v.len()
        invariant
            k <= v@.len(),
            forall|q: int| 0 <= q < k ==> #[trigger] v@[q] < n,
        decreases v@.len() - k,
    {
        if v[k] >= n {
            return false;
        }
        k = k + 1;
    }
    true
}

} // verus!
