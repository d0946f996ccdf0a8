use vstd::prelude::*;

use vstd::arithmetic::mul::{lemma_mul_inequality, lemma_mul_is_distributive_add_other_way};

use crate::particle::{proximate, Particle};

verus! {

/// How a collision pass counts the pairs it finds.
#[derive(Debug, Copy, Clone, PartialEq, Eq, Structural)]
pub enum CollisionPolicy {
    /// Count an ordered pair for every `j != i`: each unordered pair of
    /// proximate particles is counted twice, once from each side.
    Pairwise,
    /// Count only pairs whose second position is the greater: each unordered
    /// pair is counted exactly once. Identities are pinned to positions, so
    /// ordering by position is ordering by identity.
    UpperTriangular,
}

/// Whether the ordered pair `(i, j)` contributes to the collision count of
/// row `i` under the given policy.
pub open spec fn pair_counted(s: Seq<Particle>, i: int, j: int, pol: CollisionPolicy) -> bool {
    &&& match pol {
        CollisionPolicy::Pairwise => j != i,
        CollisionPolicy::UpperTriangular => j > i,
    }
    &&& proximate(s[i], s[j])
}

/// Collisions of row `i` against the snapshot positions `0..j`.
pub open spec fn count_row(s: Seq<Particle>, i: int, j: nat, pol: CollisionPolicy) -> nat
    decreases j,
{
    if j == 0 {
        0
    } else {
        count_row(s, i, (j - 1) as nat, pol) + if pair_counted(s, i, j - 1, pol) {
            1nat
        } else {
            0nat
        }
    }
}

/// Collisions of the rows `lo..hi`, each counted against the whole snapshot.
pub open spec fn count_rows(s: Seq<Particle>, lo: int, hi: int, pol: CollisionPolicy) -> nat
    decreases hi - lo,
{
    if hi <= lo {
        0
    } else {
        count_rows(s, lo, hi - 1, pol) + count_row(s, hi - 1, s.len(), pol)
    }
}

/// A row never counts more pairs than there are snapshot positions.
pub proof fn lemma_count_row_bound(s: Seq<Particle>, i: int, j: nat, pol: CollisionPolicy)
    ensures
        count_row(s, i, j, pol) <= j,
    decreases j,
{
    if j > 0 {
        lemma_count_row_bound(s, i, (j - 1) as nat, pol);
    }
}

/// A range of rows never counts more pairs than rows times snapshot size.
pub proof fn lemma_count_rows_bound(s: Seq<Particle>, lo: int, hi: int, pol: CollisionPolicy)
    requires
        lo <= hi,
    ensures
        count_rows(s, lo, hi, pol) <= (hi - lo) * s.len(),
    decreases hi - lo,
{
    if hi > lo {
        lemma_count_rows_bound(s, lo, hi - 1, pol);
        lemma_count_row_bound(s, hi - 1, s.len(), pol);
        lemma_mul_is_distributive_add_other_way(s.len() as int, hi - 1 - lo, 1);
    }
}

/// Counting rows `lo..hi` splits at any `mid` between them.
pub proof fn lemma_count_rows_split(
    s: Seq<Particle>,
    lo: int,
    mid: int,
    hi: int,
    pol: CollisionPolicy,
)
    requires
        lo <= mid <= hi,
    ensures
        count_rows(s, lo, hi, pol) == count_rows(s, lo, mid, pol) + count_rows(s, mid, hi, pol),
    decreases hi - mid,
{
    if hi > mid {
        lemma_count_rows_split(s, lo, mid, hi - 1, pol);
    }
}

/// The collision worker: every position of the assigned range `lo..hi` is
/// compared, under the policy, against every position of the full snapshot,
/// and the proximate pairs are counted. The snapshot is read only; the count
/// returned is exactly the policy's count of the assigned rows.
pub fn thread_collide(
    list: &Vec<Particle>,
    lo: usize,
    hi: usize,
    pol: CollisionPolicy,
) -> (count: u64)
    requires
        lo <= hi <= list@.len(),
        forall|k: int| 0 <= k < list@.len() ==> (#[trigger] list@[k].id) == k,
        (hi - lo) * list@.len() <= u64::MAX,
    ensures
        count == count_rows(list@, lo as int, hi as int, pol),
{
    let list_size = list.len();
    let mut count: u64 = 0;
    let mut i: usize = lo;
    while i < hi
        invariant
            lo <= i <= hi <= list@.len(),
            list_size == list@.len(),
            forall|k: int| 0 <= k < list@.len() ==> (#[trigger] list@[k].id) == k,
            (hi - lo) * list@.len() <= u64::MAX,
            count == count_rows(list@, lo as int, i as int, pol),
        decreases hi - i,
    {
        let i_id = list[i].id;
        let mut j: usize = 0;
        while j < list_size
            invariant
                lo <= i < hi <= list@.len(),
                list_size == list@.len(),
                i_id == i,
                forall|k: int| 0 <= k < list@.len() ==> (#[trigger] list@[k].id) == k,
                (hi - lo) * list@.len() <= u64::MAX,
                j <= list_size,
                count == count_rows(list@, lo as int, i as int, pol) + count_row(
                    list@,
                    i as int,
                    j as nat,
                    pol,
                ),
            decreases list_size - j,
        {
            let counted = match pol {
                CollisionPolicy::Pairwise => j != i_id,
                CollisionPolicy::UpperTriangular => j > i_id,
            };
            if counted && list[i].collide(&list[j]) {
                proof {
                    lemma_count_rows_bound(list@, lo as int, i as int, pol);
                    lemma_count_row_bound(list@, i as int, j as nat, pol);
                    lemma_mul_inequality(i as int - lo, hi as int - lo, list@.len() as int);
                    lemma_mul_is_distributive_add_other_way(list@.len() as int, i as int - lo, 1);
                    lemma_mul_inequality(i as int - lo + 1, hi as int - lo, list@.len() as int);
                }
                count = count + 1;
            }
            j = j + 1;
        }
        i = i + 1;
    }
    count
}

} // verus!
