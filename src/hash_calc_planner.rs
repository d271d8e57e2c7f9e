//! Planning of content hashing: which records are hashed, split by size into a batch for the
//! small-file workers and one for the large-file workers, and what the per-file outcomes of
//! a run add up to. Running the workers is up to the caller.
use vstd::prelude::*;

use crate::file_st::FileSt;
use crate::hash::HashMD5;
use crate::reconcile::strictly_increasing;

verus! {

broadcast use vstd::seq_lib::lemma_seq_contains_after_push;

/// The records to hash, by index: those of at most the size threshold, and the others.
#[derive(Debug)]
pub struct HashPlan {
    pub small: Vec<usize>,
    pub large: Vec<usize>,
}

/// Whether index `i` is among those asked for (all are, without a selection).
pub open spec fn selected(selection: Option<Seq<usize>>, i: usize) -> bool {
    match selection {
        None => true,
        Some(v) => v.contains(i),
    }
}

/// `plan` holds each selected record exactly once, in index order: in `small` when its
/// declared size is at most `threshold`, in `large` otherwise.
pub open spec fn is_plan(
    files: Seq<FileSt>,
    threshold: u64,
    selection: Option<Seq<usize>>,
    plan: HashPlan,
) -> bool {
    &&& strictly_increasing(plan.small@)
    &&& strictly_increasing(plan.large@)
    &&& forall|i: usize|
        #![trigger plan.small@.contains(i)]
        plan.small@.contains(i) <==> (i < files.len() && selected(selection, i)
            && files[i as int].metadata.size <= threshold)
    &&& forall|i: usize|
        #![trigger plan.large@.contains(i)]
        plan.large@.contains(i) <==> (i < files.len() && selected(selection, i)
            && files[i as int].metadata.size > threshold)
}

pub open spec fn selection_view(selection: Option<Vec<usize>>) -> Option<Seq<usize>> {
    match selection {
        None => None,
        Some(v) => Some(v@),
    }
}

/// Splits the records to hash (all of them, or those whose indices `selection` lists;
/// indices out of range are ignored) into small and large by declared size.
pub fn plan_hashes(files: &Vec<FileSt>, size_threshold: u64, selection: Option<Vec<usize>>) -> (r: HashPlan)
    ensures
        is_plan(files@, size_threshold, selection_view(selection), r),
{
    let n = files.len();
    let mut mask: Vec<bool> = Vec::new();
    let mut i: usize = 0;
    let all = selection.is_none();
    while i < n
        invariant
            n == files@.len(),
            i <= n,
            mask@.len() == i,
            forall|k: int| 0 <= k < i ==> mask@[k] == all,
        decreases n - i,
    {
        mask.push(all);
        i = i + 1;
    }
    match &selection {
        None => {},
        Some(v) => {
            let mut t: usize = 0;
            while t < v.len()
                invariant
                    n == files@.len(),
                    mask@.len() == n,
                    t <= v@.len(),
                    !all,
                    forall|k: usize|
                        k < n ==> (mask@[k as int] <==> v@.subrange(0, t as int).contains(k)),
                decreases v@.len() - t,
            {
                let x = v[t];
                if x < n {
                    mask.set(x, true);
                }
                assert(v@.subrange(0, t + 1) =~= v@.subrange(0, t as int).push(x));
                t = t + 1;
            }
            assert(v@.subrange(0, t as int) =~= v@);
        },
    }
    let mut small: Vec<usize> = Vec::new();
    let mut large: Vec<usize> = Vec::new();
    let mut k: usize = 0;
    while k < n
        invariant
            n == files@.len(),
            mask@.len() == n,
            k <= n,
            forall|x: usize|
                x < n ==> (mask@[x as int] <==> selected(selection_view(selection), x)),
            strictly_increasing(small@),
            strictly_increasing(large@),
            forall|q: int| 0 <= q < small@.len() ==> small@[q] < k,
            forall|q: int| 0 <= q < large@.len() ==> large@[q] < k,
            forall|x: usize|
                small@.contains(x) <==> (x < k && selected(selection_view(selection), x)
                    && files@[x as int].metadata.size <= size_threshold),
            forall|x: usize|
                large@.contains(x) <==> (x < k && selected(selection_view(selection), x)
                    && files@[x as int].metadata.size > size_threshold),
        decreases n - k,
    {
        if mask[k] {
            if files[k].metadata.size <= size_threshold {
                small.push(k);
            } else {
                large.push(k);
            }
        }
        k = k + 1;
    }
    HashPlan { small, large }
}

/// Each selected record is planned exactly once: in one batch and at one position of it.
pub proof fn lemma_plan_exactly_once(
    files: Seq<FileSt>,
    threshold: u64,
    selection: Option<Seq<usize>>,
    plan: HashPlan,
    i: usize,
)
    requires
        is_plan(files, threshold, selection, plan),
        i < files.len(),
        selected(selection, i),
    ensures
        plan.small@.contains(i) != plan.large@.contains(i),
        forall|a: int, b: int|
            0 <= a < plan.small@.len() && 0 <= b < plan.small@.len() && plan.small@[a] == i
                && plan.small@[b] == i ==> a == b,
        forall|a: int, b: int|
            0 <= a < plan.large@.len() && 0 <= b < plan.large@.len() && plan.large@[a] == i
                && plan.large@[b] == i ==> a == b,
{
    assert forall|a: int, b: int|
        0 <= a < plan.small@.len() && 0 <= b < plan.small@.len() && plan.small@[a] == i
            && plan.small@[b] == i implies a == b by {
        if a < b {
            assert(plan.small@[a] < plan.small@[b]);
        } else if b < a {
            assert(plan.small@[b] < plan.small@[a]);
        }
    }
    assert forall|a: int, b: int|
        0 <= a < plan.large@.len() && 0 <= b < plan.large@.len() && plan.large@[a] == i
            && plan.large@[b] == i implies a == b by {
        if a < b {
            assert(plan.large@[a] < plan.large@[b]);
        } else if b < a {
            assert(plan.large@[b] < plan.large@[a]);
        }
    }
}

/// What became of one planned record in a hashing run.
#[derive(Clone, Copy, Debug)]
pub enum HashOutcome {
    /// The content was read and hashed.
    Hashed(HashMD5),
    /// Reading the content failed.
    Failed,
    /// The run was cancelled before this record was taken up.
    NotStarted,
}

/// Why a hashing run gave no result.
#[derive(Clone, Copy, Debug, PartialEq, Eq, Structural)]
pub enum PlannerError {
    /// Cancellation was observed.
    Interrupted,
    /// There were small files and none of them could be hashed.
    AllSmallFailed,
}

/// The indices of `batch` whose outcome is a failure, in batch order.
pub open spec fn failed_in(batch: Seq<usize>, outcomes: Seq<HashOutcome>) -> Seq<usize>
    decreases batch.len(),
{
    if batch.len() == 0 || outcomes.len() != batch.len() {
        Seq::empty()
    } else {
        let rest = failed_in(batch.drop_last(), outcomes.drop_last());
        if outcomes.last() is Failed {
            rest.push(batch.last())
        } else {
            rest
        }
    }
}

pub open spec fn any_not_started(outcomes: Seq<HashOutcome>) -> bool {
    exists|k: int| 0 <= k < outcomes.len() && #[trigger] outcomes[k] is NotStarted
}

/// The result of a run from its per-record outcomes: cancellation seen in the small batch,
/// then a small batch that failed entirely, then cancellation seen between or during the
/// batches, each end the run; otherwise the failed indices, if any.
pub open spec fn hashing_verdict(
    small: Seq<usize>,
    small_outcomes: Seq<HashOutcome>,
    interrupted: bool,
    large: Seq<usize>,
    large_outcomes: Seq<HashOutcome>,
) -> Result<Option<Seq<usize>>, PlannerError> {
    let fs = failed_in(small, small_outcomes);
    let fl = failed_in(large, large_outcomes);
    if any_not_started(small_outcomes) {
        Err(PlannerError::Interrupted)
    } else if small.len() > 0 && fs.len() == small.len() {
        Err(PlannerError::AllSmallFailed)
    } else if interrupted || any_not_started(large_outcomes) {
        Err(PlannerError::Interrupted)
    } else if fs.len() + fl.len() == 0 {
        Ok(None)
    } else {
        Ok(Some(fs + fl))
    }
}

/// `x` failed: it stands in `batch` at a position whose outcome is a failure.
pub open spec fn failed_at(batch: Seq<usize>, outcomes: Seq<HashOutcome>, x: usize) -> bool {
    exists|k: int| 0 <= k < batch.len() && batch[k] == x && #[trigger] outcomes[k] is Failed
}

proof fn lemma_failed_in(batch: Seq<usize>, outcomes: Seq<HashOutcome>)
    requires
        batch.len() == outcomes.len(),
    ensures
        forall|x: usize| failed_in(batch, outcomes).contains(x) <==> failed_at(batch, outcomes, x),
        failed_in(batch, outcomes).len() <= batch.len(),
        failed_in(batch, outcomes).len() == batch.len() <==> (forall|k: int|
            0 <= k < batch.len() ==> #[trigger] outcomes[k] is Failed),
    decreases batch.len(),
{
    if batch.len() > 0 {
        let b = batch.drop_last();
        let o = outcomes.drop_last();
        lemma_failed_in(b, o);
        assert forall|x: usize|
            failed_in(batch, outcomes).contains(x) <==> failed_at(batch, outcomes, x) by {
            if failed_at(b, o, x) {
                let k = choose|k: int| 0 <= k < b.len() && b[k] == x && #[trigger] o[k] is Failed;
                assert(outcomes[k] is Failed);
            }
            if failed_at(batch, outcomes, x) {
                let k = choose|k: int|
                    0 <= k < batch.len() && batch[k] == x && #[trigger] outcomes[k] is Failed;
                if k < b.len() {
                    assert(o[k] is Failed);
                }
            }
        }
        if failed_in(batch, outcomes).len() == batch.len() {
            assert forall|k: int| 0 <= k < batch.len() implies #[trigger] outcomes[k] is Failed by {
                if k < b.len() {
                    assert(o[k] is Failed);
                }
            }
        }
        if forall|k: int| 0 <= k < batch.len() ==> #[trigger] outcomes[k] is Failed {
            assert forall|k: int| 0 <= k < b.len() implies #[trigger] o[k] is Failed by {
                assert(outcomes[k] is Failed);
            }
        }
    } else {
        assert(failed_in(batch, outcomes) =~= Seq::<usize>::empty());
    }
}

/// Records the outcomes of one batch and returns the indices that failed.
fn record_batch(files: &mut Vec<FileSt>, batch: &Vec<usize>, outcomes: &Vec<HashOutcome>) -> (r: Vec<usize>)
    requires
        batch@.len() == outcomes@.len(),
        strictly_increasing(batch@),
        forall|k: int| 0 <= k < batch@.len() ==> #[trigger] batch@[k] < old(files)@.len(),
    ensures
        r@ == failed_in(batch@, outcomes@),
        final(files)@.len() == old(files)@.len(),
        forall|x: int|
            0 <= x < old(files)@.len() ==> {
                &&& (#[trigger] final(files)@[x]).path == old(files)@[x].path
                &&& final(files)@[x].loaded_hash == old(files)@[x].loaded_hash
                &&& final(files)@[x].metadata == old(files)@[x].metadata
            },
        forall|k: int|
            0 <= k < batch@.len() ==> (#[trigger] outcomes@[k] matches HashOutcome::Hashed(h)
                ==> final(files)@[batch@[k] as int].calculated_hash == Some(h)),
        forall|x: int|
            0 <= x < old(files)@.len() && (#[trigger] final(files)@[x]).calculated_hash
                != old(files)@[x].calculated_hash ==> exists|k: int|
                0 <= k < batch@.len() && batch@[k] == x && #[trigger] outcomes@[k] is Hashed,
{
    let ghost orig = files@;
    let mut failed: Vec<usize> = Vec::new();
    let mut k: usize = 0;
    while k < batch.len()
        invariant
            k <= batch@.len(),
            batch@.len() == outcomes@.len(),
            strictly_increasing(batch@),
            forall|q: int| 0 <= q < batch@.len() ==> #[trigger] batch@[q] < orig.len(),
            failed@ == failed_in(batch@.subrange(0, k as int), outcomes@.subrange(0, k as int)),
            files@.len() == orig.len(),
            forall|x: int|
                0 <= x < orig.len() ==> {
                    &&& (#[trigger] files@[x]).path == orig[x].path
                    &&& files@[x].loaded_hash == orig[x].loaded_hash
                    &&& files@[x].metadata == orig[x].metadata
                },
            forall|q: int|
                0 <= q < k ==> (#[trigger] outcomes@[q] matches HashOutcome::Hashed(h)
                    ==> files@[batch@[q] as int].calculated_hash == Some(h)),
            forall|x: int|
                0 <= x < orig.len() && (#[trigger] files@[x]).calculated_hash
                    != orig[x].calculated_hash ==> exists|q: int|
                    0 <= q < k && batch@[q] == x && #[trigger] outcomes@[q] is Hashed,
        decreases batch@.len() - k,
    {
        let i = batch[k];
        let ghost prev = files@;
        match outcomes[k] {
            HashOutcome::Hashed(h) => {
                files[i].calculated_hash = Some(h);
                assert forall|q: int|
                    0 <= q < k + 1 implies (#[trigger] outcomes@[q] matches HashOutcome::Hashed(h2)
                        ==> files@[batch@[q] as int].calculated_hash == Some(h2)) by {
                    if q < k {
                        assert(batch@[q] < batch@[k as int]);
                    }
                }
                assert forall|x: int|
                    0 <= x < orig.len() && (#[trigger] files@[x]).calculated_hash
                        != orig[x].calculated_hash implies exists|q: int|
                        0 <= q < k + 1 && batch@[q] == x && #[trigger] outcomes@[q] is Hashed by {
                    if x != i {
                        assert(files@[x] == prev[x]);
                    } else {
                        assert(outcomes@[k as int] is Hashed);
                    }
                }
            },
            HashOutcome::Failed => {
                failed.push(i);
            },
            HashOutcome::NotStarted => {},
        }
        assert(batch@.subrange(0, k + 1).drop_last() =~= batch@.subrange(0, k as int));
        assert(outcomes@.subrange(0, k + 1).drop_last() =~= outcomes@.subrange(0, k as int));
        k = k + 1;
    }
    assert(batch@.subrange(0, k as int) =~= batch@);
    assert(outcomes@.subrange(0, k as int) =~= outcomes@);
    failed
}

fn has_not_started(outcomes: &Vec<HashOutcome>) -> (r: bool)
    ensures
        r == any_not_started(outcomes@),
{
    let mut k: usize = 0;
    while k < outcomes.len()
        invariant
            k <= outcomes@.len(),
            forall|q: int| 0 <= q < k ==> !(#[trigger] outcomes@[q] is NotStarted),
        decreases outcomes@.len() - k,
    {
        if let HashOutcome::NotStarted = outcomes[k] {
            return true;
        }
        k = k + 1;
    }
    false
}

/// Records the large batch's outcomes over a state where the small batch's are recorded.
fn record_large(
    files: &mut Vec<FileSt>,
    plan: &HashPlan,
    small_outcomes: &Vec<HashOutcome>,
    large_outcomes: &Vec<HashOutcome>,
) -> (r: Vec<usize>)
    requires
        plan.small@.len() == small_outcomes@.len(),
        plan.large@.len() == large_outcomes@.len(),
        strictly_increasing(plan.small@),
        strictly_increasing(plan.large@),
        forall|k: int| 0 <= k < plan.small@.len() ==> #[trigger] plan.small@[k] < old(files)@.len(),
        forall|k: int| 0 <= k < plan.large@.len() ==> #[trigger] plan.large@[k] < old(files)@.len(),
        forall|a: int, b: int|
            0 <= a < plan.small@.len() && 0 <= b < plan.large@.len() ==> plan.small@[a]
                != plan.large@[b],
        forall|k: int|
            0 <= k < plan.small@.len() ==> (#[trigger] small_outcomes@[k] matches HashOutcome::Hashed(h)
                ==> old(files)@[plan.small@[k] as int].calculated_hash == Some(h)),
    ensures
        r@ == failed_in(plan.large@, large_outcomes@),
        final(files)@.len() == old(files)@.len(),
        forall|x: int|
            0 <= x < old(files)@.len() ==> {
                &&& (#[trigger] final(files)@[x]).path == old(files)@[x].path
                &&& final(files)@[x].loaded_hash == old(files)@[x].loaded_hash
                &&& final(files)@[x].metadata == old(files)@[x].metadata
            },
        forall|k: int|
            0 <= k < plan.small@.len() ==> (#[trigger] small_outcomes@[k] matches HashOutcome::Hashed(h)
                ==> final(files)@[plan.small@[k] as int].calculated_hash == Some(h)),
        forall|k: int|
            0 <= k < plan.large@.len() ==> (#[trigger] large_outcomes@[k] matches HashOutcome::Hashed(h)
                ==> final(files)@[plan.large@[k] as int].calculated_hash == Some(h)),
        forall|x: int|
            0 <= x < old(files)@.len() && (#[trigger] final(files)@[x]).calculated_hash
                != old(files)@[x].calculated_hash ==> exists|k: int|
                0 <= k < plan.large@.len() && plan.large@[k] == x && #[trigger] large_outcomes@[k] is Hashed,
{
    let ghost mid = files@;
    let fl = record_batch(files, &plan.large, large_outcomes);
    assert forall|k: int|
        0 <= k < plan.small@.len() implies (#[trigger] small_outcomes@[k] matches HashOutcome::Hashed(h)
            ==> files@[plan.small@[k] as int].calculated_hash == Some(h)) by {
        let x = plan.small@[k] as int;
        if files@[x].calculated_hash != mid[x].calculated_hash {
            let q = choose|q: int|
                0 <= q < plan.large@.len() && plan.large@[q] == x && #[trigger] large_outcomes@[q] is Hashed;
            assert(plan.small@[k] != plan.large@[q]);
        }
    }
    fl
}

/// The verdict on the small batch alone: cancellation seen in it, or a non-empty batch that
/// failed entirely, ends the run before any large file is read.
pub open spec fn small_verdict(small: Seq<usize>, small_outcomes: Seq<HashOutcome>) -> Result<
    (),
    PlannerError,
> {
    if any_not_started(small_outcomes) {
        Err(PlannerError::Interrupted)
    } else if small.len() > 0 && failed_in(small, small_outcomes).len() == small.len() {
        Err(PlannerError::AllSmallFailed)
    } else {
        Ok(())
    }
}

/// Decides, from the small batch's outcomes, whether the run goes on to the large batch.
pub fn small_batch_verdict(small: &Vec<usize>, small_outcomes: &Vec<HashOutcome>) -> (r: Result<
    (),
    PlannerError,
>)
    requires
        small@.len() == small_outcomes@.len(),
    ensures
        r == small_verdict(small@, small_outcomes@),
{
    proof {
        lemma_failed_in(small@, small_outcomes@);
    }
    if has_not_started(small_outcomes) {
        return Err(PlannerError::Interrupted);
    }
    if small.len() == 0 {
        return Ok(());
    }
    let mut k: usize = 0;
    while k < small_outcomes.len()
        invariant
            k <= small_outcomes@.len(),
            small@.len() == small_outcomes@.len(),
            !any_not_started(small_outcomes@),
            small@.len() > 0,
            forall|q: int| 0 <= q < k ==> #[trigger] small_outcomes@[q] is Failed,
        decreases small_outcomes@.len() - k,
    {
        if let HashOutcome::Failed = small_outcomes[k] {
        } else {
            proof {
                lemma_failed_in(small@, small_outcomes@);
            }
            assert(!(small_outcomes@[k as int] is Failed));
            return Ok(());
        }
        k = k + 1;
    }
    Err(PlannerError::AllSmallFailed)
}

/// Takes the outcomes of a hashing run over `plan`: the small batch's outcomes, whether
/// cancellation was seen once it was done, and the large batch's outcomes. The small batch's
/// hashes are recorded; the large batch's only when the run went on past the small batch
/// (`small_verdict` is `Ok` and no cancellation was seen). The result is `hashing_verdict`,
/// whose failed indices are exactly the records whose content could not be read.
pub fn calculate_hashes(
    files: &mut Vec<FileSt>,
    plan: &HashPlan,
    small_outcomes: &Vec<HashOutcome>,
    interrupted: bool,
    large_outcomes: &Vec<HashOutcome>,
) -> (r: Result<Option<Vec<usize>>, PlannerError>)
    requires
        plan.small@.len() == small_outcomes@.len(),
        plan.large@.len() == large_outcomes@.len(),
        strictly_increasing(plan.small@),
        strictly_increasing(plan.large@),
        forall|k: int| 0 <= k < plan.small@.len() ==> #[trigger] plan.small@[k] < old(files)@.len(),
        forall|k: int| 0 <= k < plan.large@.len() ==> #[trigger] plan.large@[k] < old(files)@.len(),
        forall|a: int, b: int|
            0 <= a < plan.small@.len() && 0 <= b < plan.large@.len() ==> plan.small@[a]
                != plan.large@[b],
    ensures
        final(files)@.len() == old(files)@.len(),
        forall|x: int|
            0 <= x < old(files)@.len() ==> {
                &&& (#[trigger] final(files)@[x]).path == old(files)@[x].path
                &&& final(files)@[x].loaded_hash == old(files)@[x].loaded_hash
                &&& final(files)@[x].metadata == old(files)@[x].metadata
            },
        forall|k: int|
            0 <= k < plan.small@.len() ==> (#[trigger] small_outcomes@[k] matches HashOutcome::Hashed(h)
                ==> final(files)@[plan.small@[k] as int].calculated_hash == Some(h)),
        small_verdict(plan.small@, small_outcomes@) is Ok && !interrupted ==> forall|k: int|
            0 <= k < plan.large@.len() ==> (#[trigger] large_outcomes@[k] matches HashOutcome::Hashed(h)
                ==> final(files)@[plan.large@[k] as int].calculated_hash == Some(h)),
        forall|x: int|
            0 <= x < old(files)@.len() && (#[trigger] final(files)@[x]).calculated_hash
                != old(files)@[x].calculated_hash ==> (exists|k: int|
                0 <= k < plan.small@.len() && plan.small@[k] == x && #[trigger] small_outcomes@[k] is Hashed)
                || (small_verdict(plan.small@, small_outcomes@) is Ok && !interrupted && exists|k: int|
                0 <= k < plan.large@.len() && plan.large@[k] == x && #[trigger] large_outcomes@[k] is Hashed),
        match (r, hashing_verdict(plan.small@, small_outcomes@, interrupted, plan.large@, large_outcomes@)) {
            (Ok(Some(v)), Ok(Some(w))) => v@ == w,
            (Ok(None), Ok(None)) => true,
            (Err(e), Err(f)) => e == f,
            _ => false,
        },
        r matches Ok(Some(v)) ==> v@.no_duplicates() && forall|x: usize|
            v@.contains(x) <==> (failed_at(plan.small@, small_outcomes@, x) || failed_at(plan.large@, large_outcomes@, x)),
{
    let ghost orig = files@;
    let fs = record_batch(files, &plan.small, small_outcomes);
    let ghost mid = files@;
    proof {
        lemma_failed_in(plan.small@, small_outcomes@);
        lemma_failed_in(plan.large@, large_outcomes@);
    }
    match small_batch_verdict(&plan.small, small_outcomes) {
        Err(e) => {
            return Err(e);
        },
        Ok(()) => {},
    }
    if interrupted {
        return Err(PlannerError::Interrupted);
    }
    let fl = record_large(files, plan, small_outcomes, large_outcomes);
    proof {
        assert forall|x: int|
            0 <= x < orig.len() && (#[trigger] files@[x]).calculated_hash
                != orig[x].calculated_hash implies (exists|k: int|
                0 <= k < plan.small@.len() && plan.small@[k] == x && #[trigger] small_outcomes@[k] is Hashed)
                || (small_verdict(plan.small@, small_outcomes@) is Ok && !interrupted && exists|k: int|
                0 <= k < plan.large@.len() && plan.large@[k] == x && #[trigger] large_outcomes@[k] is Hashed) by {
            if files@[x].calculated_hash == mid[x].calculated_hash {
                assert(mid[x].calculated_hash != orig[x].calculated_hash);
            }
        }
    }
    if has_not_started(large_outcomes) {
        return Err(PlannerError::Interrupted);
    }
    if fs.len() == 0 && fl.len() == 0 {
        return Ok(None);
    }
    proof {
        lemma_failed_no_dup(plan.small@, small_outcomes@);
        lemma_failed_no_dup(plan.large@, large_outcomes@);
    }
    let mut all = fs;
    let mut k: usize = 0;
    while k < fl.len()
        invariant
            k <= fl@.len(),
            all@ == fs@ + fl@.subrange(0, k as int),
        decreases fl@.len() - k,
    {
        all.push(fl[k]);
        k = k + 1;
        assert(all@ =~= fs@ + fl@.subrange(0, k as int));
    }
    assert(fl@.subrange(0, k as int) =~= fl@);
    assert forall|x: usize|
        all@.contains(x) <==> (failed_at(plan.small@, small_outcomes@, x) || failed_at(plan.large@, large_outcomes@, x)) by {
        if all@.contains(x) {
            let q = choose|q: int| 0 <= q < all@.len() && all@[q] == x;
            if q < fs@.len() {
                assert(fs@.contains(x));
            } else {
                assert(fl@[q - fs@.len()] == x);
                assert(fl@.contains(x));
            }
        }
        if fs@.contains(x) {
            let q = choose|q: int| 0 <= q < fs@.len() && fs@[q] == x;
            assert(all@[q] == x);
        }
        if fl@.contains(x) {
            let q = choose|q: int| 0 <= q < fl@.len() && fl@[q] == x;
            assert(all@[fs@.len() + q] == x);
        }
    }
    assert forall|a: int, b: int| 0 <= a < all@.len() && 0 <= b < all@.len() && a != b implies all@[a] != all@[b] by {
        if a < fs@.len() && b >= fs@.len() {
            lemma_failed_disjoint(plan.small@, plan.large@, small_outcomes@, large_outcomes@, all@[a], all@[b]);
            assert(fs@.contains(all@[a]));
            assert(fl@[b - fs@.len()] == all@[b]);
            assert(fl@.contains(all@[b]));
        } else if b < fs@.len() && a >= fs@.len() {
            lemma_failed_disjoint(plan.small@, plan.large@, small_outcomes@, large_outcomes@, all@[b], all@[a]);
            assert(fs@.contains(all@[b]));
            assert(fl@[a - fs@.len()] == all@[a]);
            assert(fl@.contains(all@[a]));
        } else if a >= fs@.len() {
            assert(fl@[a - fs@.len()] == all@[a]);
            assert(fl@[b - fs@.len()] == all@[b]);
        }
    }
    Ok(Some(all))
}

/// The failed indices of a batch with no repeated index hold no index twice.
proof fn lemma_failed_no_dup(batch: Seq<usize>, outcomes: Seq<HashOutcome>)
    requires
        batch.len() == outcomes.len(),
        strictly_increasing(batch),
    ensures
        failed_in(batch, outcomes).no_duplicates(),
        forall|k: int| 0 <= k < failed_in(batch, outcomes).len() ==> batch.contains(#[trigger] failed_in(batch, outcomes)[k]),
    decreases batch.len(),
{
    if batch.len() > 0 {
        let b = batch.drop_last();
        let o = outcomes.drop_last();
        lemma_failed_no_dup(b, o);
        let rest = failed_in(b, o);
        assert forall|k: int| 0 <= k < rest.len() implies #[trigger] rest[k] < batch.last() by {
            let q = choose|q: int| 0 <= q < b.len() && b[q] == rest[k];
            assert(batch[q] < batch[batch.len() - 1]);
        }
        assert forall|k: int| 0 <= k < failed_in(batch, outcomes).len() implies batch.contains(#[trigger] failed_in(batch, outcomes)[k]) by {
            if k < rest.len() {
                let q = choose|q: int| 0 <= q < b.len() && b[q] == rest[k];
                assert(batch[q] == rest[k]);
            } else {
                assert(batch[batch.len() - 1] == batch.last());
            }
        }
    }
}

proof fn lemma_failed_disjoint(
    small: Seq<usize>,
    large: Seq<usize>,
    so: Seq<HashOutcome>,
    lo: Seq<HashOutcome>,
    x: usize,
    y: usize,
)
    requires
        small.len() == so.len(),
        large.len() == lo.len(),
        forall|a: int, b: int| 0 <= a < small.len() && 0 <= b < large.len() ==> small[a] != large[b],
        failed_in(small, so).contains(x),
        failed_in(large, lo).contains(y),
    ensures
        x != y,
{
    lemma_failed_in(small, so);
    lemma_failed_in(large, lo);
    assert(failed_at(small, so, x));
    assert(failed_at(large, lo, y));
    let a = choose|a: int| 0 <= a < small.len() && small[a] == x && #[trigger] so[a] is Failed;
    let b = choose|b: int| 0 <= b < large.len() && large[b] == y && #[trigger] lo[b] is Failed;
    assert(small[a] != large[b]);
}

/// A plan's batches are increasing, index into the files, and share no index.
pub proof fn lemma_plan_fits(files: Seq<FileSt>, threshold: u64, selection: Option<Seq<usize>>, plan: HashPlan)
    requires
        is_plan(files, threshold, selection, plan),
    ensures
        crate::engine_checks::plan_fits(plan, files.len() as int),
{
    assert forall|k: int| 0 <= k < plan.small@.len() implies #[trigger] plan.small@[k] < files.len() by {
        assert(plan.small@.contains(plan.small@[k]));
    }
    assert forall|k: int| 0 <= k < plan.large@.len() implies #[trigger] plan.large@[k] < files.len() by {
        assert(plan.large@.contains(plan.large@[k]));
    }
    assert forall|a: int, b: int|
        0 <= a < plan.small@.len() && 0 <= b < plan.large@.len() implies plan.small@[a] != plan.large@[b] by {
        assert(plan.small@.contains(plan.small@[a]));
        assert(plan.large@.contains(plan.large@[b]));
    }
}

} // verus!
