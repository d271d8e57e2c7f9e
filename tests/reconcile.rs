use sfisum::dd_file_rw::read_dd;
use sfisum::directory_walker::WalkError;
use sfisum::engine::{create_engine, dd_filename_to_hash_type, infer_hash_type, Engine, EngineError, Mode};
use sfisum::file_metadata::{FileMetadata, Timestamp};
use sfisum::file_st::FileSt;
use sfisum::hash::HashMD5;
use sfisum::hash_calc_planner::{
    calculate_hashes, plan_hashes, small_batch_verdict, HashOutcome, HashPlan, PlannerError,
};
use sfisum::hash_def::{HashType, HashValue};
use sfisum::reconcile::{classify_dirty, crosscheck, partition_by_path};

fn meta(size: u64, secs: u64) -> FileMetadata {
    FileMetadata::new(Timestamp { secs, nanos: 0 }, size)
}

fn disk(path: &str, size: u64, secs: u64) -> FileSt {
    FileSt::new(path.to_string(), None, meta(size, secs))
}

fn listed(path: &str, content: &[u8], size: u64, secs: u64) -> FileSt {
    FileSt::new(path.to_string(), Some(HashMD5::from_content(content)), meta(size, secs))
}

fn hex(content: &[u8]) -> String {
    HashValue::to_string(&HashMD5::from_content(content))
}

/// Hashes what a plan asks for, from contents given by index.
fn outcomes(plan: &HashPlan, contents: &[&[u8]]) -> (Vec<HashOutcome>, Vec<HashOutcome>) {
    let run = |batch: &Vec<usize>| -> Vec<HashOutcome> {
        batch.iter().map(|&i| HashOutcome::Hashed(HashMD5::from_content(contents[i]))).collect()
    };
    (run(&plan.small), run(&plan.large))
}

fn manifest(entries: &[(&str, &[u8], u64, u64)]) -> Vec<String> {
    let mut out = vec!["; Directory digest generated at t containing 0 entries".to_string(), "; Hash: MD5".to_string()];
    for (path, content, size, secs) in entries {
        out.push(format!("; Size: {}, Last modified: {}", size, secs));
        out.push(format!("{} *{}", hex(content), path));
    }
    out
}

fn engine_at(base: &str) -> Engine {
    let mut e = create_engine(HashType::MD5);
    e.set_paths("/m/digest.ddmd5".to_string(), base.to_string());
    e
}

#[test]
fn generate_two_files() {
    let mut e = engine_at("/d");
    let plan = e.start_generate(Ok(vec![disk("/d/a.txt", 5, 10), disk("/d/b.txt", 5, 11)])).unwrap();
    assert_eq!(plan.small, vec![0, 1]);
    assert!(plan.large.is_empty());
    let (s, l) = outcomes(&plan, &[b"hello", b"world"]);
    e.finish_hashing(&s, false, &l).unwrap();
    assert_eq!(e.event_count_generate(), 0);
    let lines = e.manifest_lines("NOW").unwrap();
    assert_eq!(lines.len(), 6);
    assert_eq!(lines[0], "; Directory digest generated at NOW containing 2 entries");
    assert_eq!(lines[1], "; Hash: MD5");
    assert_eq!(lines[2], "; Size: 5, Last modified: 10");
    assert_eq!(lines[3], "5d41402abc4b2a76b9719d911017c592 *a.txt");
    assert_eq!(lines[5], "7d793037a0760186574b0282f2f435e7 *b.txt");
    let back = read_dd(&lines, "/d", '/').unwrap();
    assert_eq!(back.len(), 2);
    assert_eq!(back[0].path, "/d/a.txt");
    assert_eq!(back[1].path, "/d/b.txt");
    assert_eq!(HashValue::to_string(&back[0].loaded_hash.unwrap()), hex(b"hello"));
    assert_eq!(HashValue::to_string(&back[1].loaded_hash.unwrap()), hex(b"world"));
    let saved = e.save_dd_file().unwrap();
    assert_eq!(saved.len(), 6);
    assert!(saved[0].ends_with("containing 2 entries"));
}

#[test]
fn generate_skips_files_that_failed_to_hash() {
    let mut e = engine_at("/d");
    let plan = e.start_generate(Ok(vec![disk("/d/a", 1, 1), disk("/d/b", 1, 1)])).unwrap();
    let small = vec![HashOutcome::Failed, HashOutcome::Hashed(HashMD5::from_content(b"b"))];
    e.finish_hashing(&small, false, &Vec::new()).unwrap();
    assert_eq!(e.hashing_error_index, vec![0]);
    assert_eq!(e.event_count_generate(), 1);
    assert_eq!(plan.small.len(), 2);
    let lines = e.manifest_lines("t").unwrap();
    assert_eq!(lines.len(), 4);
    assert_eq!(lines[3], format!("{} *b", hex(b"b")));
}

#[test]
fn fast_refresh_moved_file_is_found() {
    let mut e = engine_at("/d");
    let m = manifest(&[("a.txt", b"hello", 5, 10), ("b.txt", b"world", 5, 11)]);
    let listing = vec![disk("/d/a.txt", 5, 10), disk("/d/c.txt", 5, 12)];
    let plan = e.start_fast_refresh(Ok(listing), Ok(m)).unwrap();
    assert_eq!(plan.small, vec![1]);
    let small = vec![HashOutcome::Hashed(HashMD5::from_content(b"world"))];
    e.finish_hashing(&small, false, &Vec::new()).unwrap();
    assert_eq!(e.crosscheck.found.len(), 1);
    assert_eq!(e.crosscheck.found[0].primary, vec![1]);
    assert_eq!(e.crosscheck.found[0].secondary, vec![1]);
    assert!(e.crosscheck.primary_orphans.is_empty());
    assert!(e.crosscheck.secondary_orphans.is_empty());
    assert!(e.crosscheck.secondary_orphans_with_duplicate.is_empty());
    assert_eq!(e.event_count_fast_refresh(), 1);
    let a = e.primary_ds[0].calculated_hash.unwrap();
    assert_eq!(HashValue::to_string(&a), hex(b"hello"));
}

#[test]
fn fast_refresh_touched_file_is_valid() {
    let mut e = engine_at("/d");
    let m = manifest(&[("a.txt", b"hello", 5, 10)]);
    let plan = e.start_fast_refresh(Ok(vec![disk("/d/a.txt", 5, 99)]), Ok(m)).unwrap();
    assert_eq!(plan.small, vec![0]);
    let (s, l) = outcomes(&plan, &[b"hello"]);
    e.finish_hashing(&s, false, &l).unwrap();
    assert_eq!(e.classification.dirty_valid, vec![0]);
    assert!(e.classification.invalid_hash.is_empty());
    assert!(e.hashing_error_index.is_empty());
    assert_eq!(e.event_count_fast_refresh(), 1);
}

#[test]
fn fast_refresh_size_and_hash_change() {
    let mut e = engine_at("/d");
    let m = manifest(&[("a.txt", b"hello", 5, 10)]);
    let plan = e.start_fast_refresh(Ok(vec![disk("/d/a.txt", 6, 10)]), Ok(m)).unwrap();
    let (s, l) = outcomes(&plan, &[b"hello!"]);
    e.finish_hashing(&s, false, &l).unwrap();
    assert_eq!(e.classification.dirty_by_size, vec![0]);
    assert!(e.classification.dirty_by_date.is_empty());
    assert!(e.classification.dirty_valid.is_empty());
    let fresh = e.primary_ds[0].calculated_hash.unwrap();
    assert_eq!(HashValue::to_string(&fresh), hex(b"hello!"));
}

#[test]
fn fast_refresh_unchanged_file_is_not_hashed() {
    let mut e = engine_at("/d");
    let m = manifest(&[("a.txt", b"hello", 5, 10)]);
    let plan = e.start_fast_refresh(Ok(vec![disk("/d/a.txt", 5, 10)]), Ok(m)).unwrap();
    assert!(plan.small.is_empty() && plan.large.is_empty());
    e.finish_hashing(&Vec::new(), false, &Vec::new()).unwrap();
    assert_eq!(HashValue::to_string(&e.primary_ds[0].calculated_hash.unwrap()), hex(b"hello"));
    assert_eq!(e.event_count_fast_refresh(), 0);
}

#[test]
fn fast_refresh_orphans() {
    let mut e = engine_at("/d");
    let m = manifest(&[("gone.txt", b"old", 3, 1), ("dup1", b"same", 4, 1), ("dup2", b"same", 4, 1)]);
    let listing = vec![disk("/d/new.txt", 3, 2), disk("/d/dup2", 4, 1)];
    let plan = e.start_fast_refresh(Ok(listing), Ok(m)).unwrap();
    assert_eq!(plan.small, vec![0]);
    e.finish_hashing(&vec![HashOutcome::Hashed(HashMD5::from_content(b"new"))], false, &Vec::new()).unwrap();
    assert_eq!(e.crosscheck.primary_orphans, vec![0]);
    assert_eq!(e.crosscheck.secondary_orphans, vec![0]);
    assert_eq!(e.crosscheck.secondary_orphans_with_duplicate, vec![1]);
    assert!(e.crosscheck.found.is_empty());
    assert_eq!(e.event_count_fast_refresh(), 3);
}

#[test]
fn partition_counts() {
    let p = vec![disk("/a", 1, 1), disk("/b", 1, 1), disk("/c", 1, 1)];
    let s = vec![listed("/b", b"b", 1, 1), listed("/d", b"d", 1, 1)];
    let r = partition_by_path(&p, &s);
    assert_eq!(r.only_primary, vec![0, 2]);
    assert_eq!(r.only_secondary, vec![1]);
    assert_eq!(r.in_both, vec![(1, 0)]);
    assert_eq!(r.only_primary.len() + r.in_both.len(), p.len());
    assert_eq!(r.only_secondary.len() + r.in_both.len(), s.len());
}

#[test]
fn dirty_pair_categories() {
    let mut p = vec![
        disk("/same_meta", 5, 10),
        disk("/size_only", 6, 10),
        disk("/date_only", 5, 11),
        disk("/both", 6, 11),
        disk("/content_same", 5, 11),
    ];
    for f in p.iter_mut() {
        f.calc_hash(Some(HashMD5::from_content(b"new")));
    }
    p[4].calc_hash(Some(HashMD5::from_content(b"old")));
    let s = vec![
        listed("/same_meta", b"old", 5, 10),
        listed("/size_only", b"old", 5, 10),
        listed("/date_only", b"old", 5, 10),
        listed("/both", b"old", 5, 10),
        listed("/content_same", b"old", 5, 10),
    ];
    let dirty = vec![(0, 0), (1, 1), (2, 2), (3, 3), (4, 4)];
    let c = classify_dirty(&p, &s, &dirty);
    assert_eq!(c.invalid_hash, vec![0]);
    assert_eq!(c.dirty_by_size, vec![1]);
    assert_eq!(c.dirty_by_date, vec![2]);
    assert_eq!(c.dirty_by_both, vec![3]);
    assert_eq!(c.dirty_valid, vec![4]);
}

#[test]
fn crosscheck_pairs_shared_content() {
    let mut p = vec![disk("/x", 1, 1), disk("/y", 1, 1)];
    p[0].calc_hash(Some(HashMD5::from_content(b"k")));
    p[1].calc_hash(Some(HashMD5::from_content(b"k")));
    let s = vec![listed("/old", b"k", 1, 1)];
    let r = crosscheck(&p, &s, &vec![0, 1], &vec![0]);
    assert_eq!(r.found.len(), 1);
    assert_eq!(r.found[0].primary, vec![0, 1]);
    assert_eq!(r.found[0].secondary, vec![0]);
    assert!(r.primary_orphans.is_empty() && r.secondary_orphans.is_empty());
}

#[test]
fn plan_split_by_size() {
    let files = vec![disk("/a", 1024 * 1024, 1), disk("/b", 1024 * 1024 + 1, 1), disk("/c", 0, 1)];
    let all = plan_hashes(&files, 1024 * 1024, None);
    assert_eq!(all.small, vec![0, 2]);
    assert_eq!(all.large, vec![1]);
    let some = plan_hashes(&files, 1024 * 1024, Some(vec![1, 2, 2, 7]));
    assert_eq!(some.small, vec![2]);
    assert_eq!(some.large, vec![1]);
}

#[test]
fn hashing_failures_are_collected() {
    let mut files = vec![disk("/a", 1, 1), disk("/b", 1, 1), disk("/c", 5, 1)];
    let plan = plan_hashes(&files, 1, None);
    let small = vec![HashOutcome::Hashed(HashMD5::from_content(b"a")), HashOutcome::Failed];
    let large = vec![HashOutcome::Failed];
    let r = calculate_hashes(&mut files, &plan, &small, false, &large);
    assert_eq!(r, Ok(Some(vec![1, 2])));
    assert!(files[0].calculated_hash.is_some());
    assert!(files[1].calculated_hash.is_none());
}

#[test]
fn hashing_run_verdicts() {
    let mut files = vec![disk("/a", 1, 1), disk("/b", 9, 1)];
    let plan = plan_hashes(&files, 1, None);
    let ok = HashOutcome::Hashed(HashMD5::from_content(b"a"));
    assert_eq!(
        calculate_hashes(&mut files, &plan, &vec![HashOutcome::Failed], false, &vec![ok]),
        Err(PlannerError::AllSmallFailed)
    );
    assert_eq!(
        calculate_hashes(&mut files, &plan, &vec![HashOutcome::NotStarted], false, &vec![ok]),
        Err(PlannerError::Interrupted)
    );
    assert_eq!(
        calculate_hashes(&mut files, &plan, &vec![ok], true, &vec![ok]),
        Err(PlannerError::Interrupted)
    );
    assert_eq!(
        calculate_hashes(&mut files, &plan, &vec![ok], false, &vec![HashOutcome::NotStarted]),
        Err(PlannerError::Interrupted)
    );
    assert_eq!(calculate_hashes(&mut files, &plan, &vec![ok], false, &vec![HashOutcome::Failed]), Ok(Some(vec![1])));
    assert_eq!(calculate_hashes(&mut files, &plan, &vec![ok], false, &vec![ok]), Ok(None));
}

#[test]
fn validate_reports_changed_content() {
    let mut e = engine_at("/d");
    let m = manifest(&[("a", b"one", 3, 1), ("b", b"two", 3, 1)]);
    let plan = e.start_validate(Ok(m)).unwrap();
    let (s, l) = outcomes(&plan, &[b"one", b"TWO"]);
    e.finish_hashing(&s, false, &l).unwrap();
    assert_eq!(e.invalid_hash_index, vec![1]);
    assert_eq!(e.event_count_validate(), 1);
}

#[test]
fn engine_runs_one_mode() {
    let mut e = engine_at("/d");
    assert_eq!(e.start_full_refresh(), Err(EngineError::NotImplemented));
    assert_eq!(e.mode, Some(Mode::FullRefresh));
    assert_eq!(e.start_generate(Ok(vec![disk("/d/a", 1, 1)])).unwrap_err(), EngineError::ModeAlreadySet);
    assert_eq!(e.event_count_full_refresh(), 0);
}

#[test]
fn engine_step_errors() {
    let mut e = engine_at("/d");
    assert_eq!(e.finish_hashing(&Vec::new(), false, &Vec::new()), Err(EngineError::NoPendingHashing));
    assert_eq!(e.start_generate(Ok(Vec::new())).unwrap_err(), EngineError::Walk(WalkError::NoFiles));
    let mut e = engine_at("/d");
    e.start_generate(Ok(vec![disk("/d/a", 1, 1)])).unwrap();
    assert_eq!(e.finish_hashing(&Vec::new(), false, &Vec::new()), Err(EngineError::OutcomeCountMismatch));
    let mut e = engine_at("/d");
    assert_eq!(e.start_validate(Err("gone".to_string())).unwrap_err(), EngineError::ManifestRead("gone".to_string()));
    let mut e = engine_at("/d");
    let r = e.start_fast_refresh(Ok(vec![disk("/d/a", 1, 1)]), Ok(vec!["; nothing".to_string()]));
    assert!(matches!(r, Err(EngineError::Manifest(_))));
    let mut e = engine_at("/d");
    e.start_generate(Ok(vec![disk("/d/a", 1, 1)])).unwrap();
    let r = e.finish_hashing(&vec![HashOutcome::Failed], false, &Vec::new());
    assert_eq!(r, Err(EngineError::Hashing(PlannerError::AllSmallFailed)));
}

#[test]
fn manifest_names() {
    let e = engine_at("/d");
    assert_eq!(e.default_manifest_name(), "digest.ddmd5");
    assert!(e.manifest_file_name().ends_with(".ddmd5"));
    assert_eq!(dd_filename_to_hash_type("/x/2024-01-01_10-00.ddmd5"), Some(HashType::MD5));
    assert_eq!(dd_filename_to_hash_type("ddmd5"), Some(HashType::MD5));
    assert_eq!(dd_filename_to_hash_type("digest.txt"), None);
    assert_eq!(dd_filename_to_hash_type("digest.ddmd5."), None);
}

#[test]
fn all_small_failed_leaves_large_untouched() {
    let mut files = vec![disk("/a", 1, 1), disk("/b", 9, 1)];
    let plan = plan_hashes(&files, 1, None);
    let ok = HashOutcome::Hashed(HashMD5::from_content(b"b"));
    let small = vec![HashOutcome::Failed];
    assert_eq!(small_batch_verdict(&plan.small, &small), Err(PlannerError::AllSmallFailed));
    assert_eq!(small_batch_verdict(&plan.small, &vec![ok]), Ok(()));
    assert_eq!(small_batch_verdict(&plan.small, &vec![HashOutcome::NotStarted]), Err(PlannerError::Interrupted));
    assert_eq!(calculate_hashes(&mut files, &plan, &small, false, &vec![ok]), Err(PlannerError::AllSmallFailed));
    assert!(files[1].calculated_hash.is_none());
    let all_large_fail = calculate_hashes(&mut files, &plan, &vec![ok], false, &vec![HashOutcome::Failed]);
    assert_eq!(all_large_fail, Ok(Some(vec![1])));
}

#[test]
fn engine_small_batch_check() {
    let mut e = engine_at("/d");
    assert_eq!(e.check_small_batch(&Vec::new()), Err(EngineError::NoPendingHashing));
    let plan = e.start_generate(Ok(vec![disk("/d/a", 1, 1), disk("/d/b", 2 * 1024 * 1024, 1)])).unwrap();
    assert_eq!(plan.small, vec![0]);
    assert_eq!(plan.large, vec![1]);
    assert_eq!(e.check_small_batch(&vec![HashOutcome::Failed]), Err(EngineError::Hashing(PlannerError::AllSmallFailed)));
    assert_eq!(e.check_small_batch(&Vec::new()), Err(EngineError::OutcomeCountMismatch));
    assert_eq!(e.check_small_batch(&vec![HashOutcome::Hashed(HashMD5::from_content(b"a"))]), Ok(()));
}

#[test]
fn failed_record_keeps_no_hash() {
    let mut e = engine_at("/d");
    let m = manifest(&[("a", b"one", 3, 1), ("b", b"two", 3, 1)]);
    let plan = e.start_validate(Ok(m)).unwrap();
    assert_eq!(plan.small, vec![0, 1]);
    let small = vec![HashOutcome::Failed, HashOutcome::Hashed(HashMD5::from_content(b"TWO"))];
    e.finish_hashing(&small, false, &Vec::new()).unwrap();
    assert!(e.primary_ds[0].calculated_hash.is_none());
    assert_eq!(e.hashing_error_index, vec![0]);
    assert_eq!(e.invalid_hash_index, vec![1]);
    assert_eq!(e.event_count_validate(), 2);
}

#[test]
fn fresh_engine_counts_nothing() {
    let e = create_engine(HashType::MD5);
    assert_eq!(e.event_count_generate(), 0);
    assert_eq!(e.event_count_validate(), 0);
    assert_eq!(e.event_count_fast_refresh(), 0);
    assert_eq!(e.fast_refresh_summary(), (0, 0, 0));
}

#[test]
fn start_error_leaves_engine_empty() {
    let mut e = engine_at("/d");
    let r = e.start_validate(Ok(vec!["; Hash: SHA1".to_string()]));
    assert_eq!(r.unwrap_err(), EngineError::Manifest(sfisum::dd_file_rw::ManifestError::UnsupportedHashType(1)));
    assert!(e.primary_ds.is_empty());
    assert!(e.pending.is_none());
    assert_eq!(e.mode, Some(Mode::Validate));
    assert_eq!(e.start_generate(Ok(vec![disk("/d/a", 1, 1)])).unwrap_err(), EngineError::ModeAlreadySet);
}

#[test]
fn refresh_report_counts() {
    let mut e = engine_at("/d");
    let m = manifest(&[("a.txt", b"hello", 5, 10), ("gone", b"old", 3, 1)]);
    let plan = e.start_fast_refresh(Ok(vec![disk("/d/a.txt", 5, 11), disk("/d/new", 3, 1)]), Ok(m)).unwrap();
    let (s, l) = outcomes(&plan, &[b"hello", b"new"]);
    e.finish_hashing(&s, false, &l).unwrap();
    assert_eq!(e.fast_refresh_summary(), (1, 2, 0));
}

#[test]
fn hash_type_inference() {
    let header = vec!["; Hash: MD5".to_string()];
    assert_eq!(infer_hash_type("/x/a.ddmd5", None), Some(HashType::MD5));
    assert_eq!(infer_hash_type("/x/a.txt", Some(&header)), Some(HashType::MD5));
    assert_eq!(infer_hash_type("/x/a.txt", None), None);
    assert_eq!(infer_hash_type("/x/a.txt", Some(&vec!["; Hash: SHA1".to_string()])), None);
    let e = engine_at("/d");
    assert_eq!(e.manifest_file_name_at("2024-01-01_10-00"), "2024-01-01_10-00.ddmd5");
}
