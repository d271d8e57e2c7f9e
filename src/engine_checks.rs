//! Run-time checks of the index lists an engine holds between its steps.
use vstd::prelude::*;

use crate::file_st::FileSt;
use crate::hash_calc_planner::HashPlan;
use crate::reconcile::{all_loaded, firsts_increasing, indices_in_range, strictly_increasing};

verus! {

/// Increasing indices below `n`.
pub fn check_increasing(v: &Vec<usize>, n: usize) -> (r: bool)
    ensures
        r == (strictly_increasing(v@) && indices_in_range(v@, n as int)),
{
    let mut k: usize = 0;
    while k < v.len()
        invariant
            k <= v@.len(),
            forall|a: int, b: int| 0 <= a < b < k ==> v@[a] < v@[b],
            forall|q: int| 0 <= q < k ==> #[trigger] v@[q] < n,
        decreases v@.len() - k,
    {
        if v[k] >= n {
            return false;
        }
        if k > 0 && v[k - 1] >= v[k] {
            return false;
        }
        k = k + 1;
    }
    true
}

/// Pairs of indices of `p` and `s`, increasing in their first component.
pub fn check_pairs(v: &Vec<(usize, usize)>, p: &Vec<FileSt>, s: &Vec<FileSt>) -> (r: bool)
    ensures
        r == (firsts_increasing(v@) && crate::reconcile::pairs_in_range(p@, s@, v@)),
{
    let n = p.len();
    let m = s.len();
    let mut k: usize = 0;
    while k < v.len()
        invariant
            n == p@.len(),
            m == s@.len(),
            k <= v@.len(),
            forall|a: int, b: int| 0 <= a < b < k ==> v@[a].0 < v@[b].0,
            forall|q: int| 0 <= q < k ==> (#[trigger] v@[q]).0 < n && v@[q].1 < m,
        decreases v@.len() - k,
    {
        if v[k].0 >= n || v[k].1 >= m {
            return false;
        }
        if k > 0 && v[k - 1].0 >= v[k].0 {
            return false;
        }
        k = k + 1;
    }
    true
}

/// Every record carries a loaded hash.
pub fn check_loaded(s: &Vec<FileSt>) -> (r: bool)
    ensures
        r == all_loaded(s@),
{
    let mut k: usize = 0;
    while k < s.len()
        invariant
            k <= s@.len(),
            forall|q: int| 0 <= q < k ==> (#[trigger] s@[q]).loaded_hash is Some,
        decreases s@.len() - k,
    {
        if s[k].loaded_hash.is_none() {
            return false;
        }
        k = k + 1;
    }
    true
}

/// The plan's batches are increasing, below `n`, and share no index.
pub open spec fn plan_fits(plan: HashPlan, n: int) -> bool {
    &&& strictly_increasing(plan.small@)
    &&& strictly_increasing(plan.large@)
    &&& indices_in_range(plan.small@, n)
    &&& indices_in_range(plan.large@, n)
    &&& forall|a: int, b: int|
        0 <= a < plan.small@.len() && 0 <= b < plan.large@.len() ==> plan.small@[a]
            != plan.large@[b]
}

pub fn check_plan(plan: &HashPlan, n: usize) -> (r: bool)
    ensures
        r == plan_fits(*plan, n as int),
{
    if !check_increasing(&plan.small, n) || !check_increasing(&plan.large, n) {
        return false;
    }
    let mut mask: Vec<bool> = Vec::new();
    let mut i: usize = 0;
    while i < n
        invariant
            i <= n,
            mask@.len() == i,
            forall|k: int| 0 <= k < i ==> !mask@[k],
        decreases n - i,
    {
        mask.push(false);
        i = i + 1;
    }
    let mut t: usize = 0;
    while t < plan.small.len()
        invariant
            mask@.len() == n,
            t <= plan.small@.len(),
            indices_in_range(plan.small@, n as int),
            forall|x: int| 0 <= x < n ==> (mask@[x] <==> exists|a: int| 0 <= a < t && #[trigger] plan.small@[a] == x),
        decreases plan.small@.len() - t,
    {
        let x = plan.small[t];
        mask.set(x, true);
        assert forall|y: int| 0 <= y < n implies (mask@[y] <==> exists|a: int| 0 <= a < t + 1 && #[trigger] plan.small@[a] == y) by {
            if y == x {
                assert(plan.small@[t as int] == y);
            }
        }
        t = t + 1;
    }
    let mut u: usize = 0;
    while u < plan.large.len()
        invariant
            mask@.len() == n,
            u <= plan.large@.len(),
            indices_in_range(plan.small@, n as int),
            indices_in_range(plan.large@, n as int),
            forall|x: int| 0 <= x < n ==> (mask@[x] <==> exists|a: int| 0 <= a < plan.small@.len() && #[trigger] plan.small@[a] == x),
            forall|a: int, b: int| 0 <= a < plan.small@.len() && 0 <= b < u ==> plan.small@[a] != plan.large@[b],
        decreases plan.large@.len() - u,
    {
        let y = plan.large[u];
        if mask[y] {
            let ghost a = choose|a: int| 0 <= a < plan.small@.len() && #[trigger] plan.small@[a] == y as int;
            assert(plan.small@[a] == plan.large@[u as int]);
            return false;
        }
        u = u + 1;
    }
    true
}

} // verus!
