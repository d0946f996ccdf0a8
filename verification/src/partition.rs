use vstd::prelude::*;

use vstd::arithmetic::div_mod::{
    lemma_div_is_ordered, lemma_div_multiples_vanish, lemma_fundamental_div_mod,
};
use vstd::arithmetic::mul::{lemma_mul_inequality, lemma_mul_is_distributive_add_other_way};

verus! {

/// First index of movement chunk `k` when `n` particles are split over `w`
/// workers: chunks have `n / w` particles each, and the remainder of the
/// truncating division is folded into the last chunk.
pub open spec fn chunk_lo(n: int, w: int, k: int) -> int {
    k * (n / w)
}

/// One past the last index of movement chunk `k`.
pub open spec fn chunk_hi(n: int, w: int, k: int) -> int {
    if k == w - 1 {
        n
    } else {
        (k + 1) * (n / w)
    }
}

/// The boundaries of chunks `0..k` tile the prefix `0..chunk_lo(n, w, k)`;
/// this is the part of the collection already covered once the first `k`
/// chunks are done, all of it when `k == w`.
pub open spec fn covered_upto(n: int, w: int, k: int) -> int {
    if k == w {
        n
    } else {
        chunk_lo(n, w, k)
    }
}

/// Chunk boundaries are ordered and lie inside the collection.
pub proof fn lemma_chunk_wf(n: int, w: int, k: int)
    requires
        1 <= w <= n,
        0 <= k < w,
    ensures
        0 <= chunk_lo(n, w, k) <= chunk_hi(n, w, k) <= n,
        chunk_hi(n, w, k) == covered_upto(n, w, k + 1),
{
    let q = n / w;
    lemma_fundamental_div_mod(n, w);
    assert(q >= 1) by {
        lemma_div_is_ordered(w, n, w);
        lemma_div_multiples_vanish(1, w);
    }
    assert(k * q >= 0) by (nonlinear_arith)
        requires
            k >= 0,
            q >= 0,
    ;
    lemma_mul_inequality(k + 1, w, q);
    assert(w * q <= n);
    assert(k * q <= (k + 1) * q) by (nonlinear_arith)
        requires
            q >= 0,
    ;
}

/// Splitting a collection of `n` particles over `w` movement workers touches
/// every index exactly once: each index lies in one chunk, and in only one.
pub proof fn lemma_partition_covers(n: int, w: int, i: int)
    requires
        1 <= w <= n,
        0 <= i < n,
    ensures
        exists|k: int|
            0 <= k < w && #[trigger] chunk_lo(n, w, k) <= i < chunk_hi(n, w, k),
        forall|k1: int, k2: int|
            (0 <= k1 < w && #[trigger] chunk_lo(n, w, k1) <= i < chunk_hi(n, w, k1) && 0 <= k2 < w
                && #[trigger] chunk_lo(n, w, k2) <= i < chunk_hi(n, w, k2)) ==> k1 == k2,
{
    let q = n / w;
    lemma_chunk_wf(n, w, 0);
    assert(q >= 1) by {
        lemma_fundamental_div_mod(n, w);
        lemma_div_is_ordered(w, n, w);
        lemma_div_multiples_vanish(1, w);
    }
    // Existence: the chunk of index i is i / q, capped at the last chunk.
    let c = if i / q >= w - 1 {
        w - 1
    } else {
        i / q
    };
    lemma_fundamental_div_mod(i, q);
    assert(0 <= i / q) by {
        lemma_div_is_ordered(0, i, q);
        lemma_div_multiples_vanish(0, q);
    }
    if i / q >= w - 1 {
        // i lies in the last chunk: (w - 1) * q <= (i / q) * q <= i < n.
        lemma_mul_inequality(w - 1, i / q, q);
        assert((i / q) * q <= i) by {
            lemma_fundamental_div_mod(i, q);
            assert(q * (i / q) == (i / q) * q) by (nonlinear_arith);
        }
        assert(chunk_lo(n, w, c) <= i < chunk_hi(n, w, c));
    } else {
        assert(q * (i / q) + i % q == i);
        assert(chunk_lo(n, w, c) == (i / q) * q);
        assert(q * (i / q) == (i / q) * q) by (nonlinear_arith);
        assert((i / q) * q <= i < (i / q + 1) * q) by {
            lemma_mul_is_distributive_add_other_way(q, i / q, 1);
            assert(0 <= i % q < q);
        }
        assert(chunk_lo(n, w, c) <= i < chunk_hi(n, w, c));
    }
    assert(exists|k: int|
        0 <= k < w && #[trigger] chunk_lo(n, w, k) <= i < chunk_hi(n, w, k)) by {
        assert(0 <= c < w && chunk_lo(n, w, c) <= i < chunk_hi(n, w, c));
    }
    // Uniqueness: chunks with smaller index end no later than later chunks begin.
    assert forall|k1: int, k2: int|
        (0 <= k1 < w && #[trigger] chunk_lo(n, w, k1) <= i < chunk_hi(n, w, k1) && 0 <= k2 < w
            && #[trigger] chunk_lo(n, w, k2) <= i < chunk_hi(n, w, k2)) implies k1 == k2 by {
        if k1 < k2 {
            lemma_mul_inequality(k1 + 1, k2, q);
            lemma_chunk_wf(n, w, k1);
            assert(chunk_hi(n, w, k1) <= (k1 + 1) * q);
            assert(i < chunk_hi(n, w, k1) && chunk_lo(n, w, k2) <= i);
            assert(false);
        } else if k2 < k1 {
            lemma_mul_inequality(k2 + 1, k1, q);
            lemma_chunk_wf(n, w, k2);
            assert(chunk_hi(n, w, k2) <= (k2 + 1) * q);
            assert(false);
        }
    }
}

/// The prefix of the collection that a collision pass covers: `w` ranges of
/// `n / w` positions each, with no fold of the remainder, so up to `w - 1`
/// tail positions fall outside every range.
pub open spec fn collision_covered(n: int, w: int) -> int {
    w * (n / w)
}

/// The collision ranges cover a prefix of the collection.
pub proof fn lemma_collision_covered_bound(n: int, w: int)
    requires
        1 <= w <= n,
    ensures
        0 <= collision_covered(n, w) <= n,
        n / w >= 1,
{
    lemma_fundamental_div_mod(n, w);
    assert(n / w >= 1) by {
        lemma_div_is_ordered(w, n, w);
        lemma_div_multiples_vanish(1, w);
    }
}

/// Compute the boundaries of movement chunk `k` as executable code.
pub fn chunk_bounds(n: usize, w: usize, k: usize) -> (b: (usize, usize))
    requires
        1 <= w <= n,
        k < w,
    ensures
        b.0 == chunk_lo(n as int, w as int, k as int),
        b.1 == chunk_hi(n as int, w as int, k as int),
        b.0 <= b.1 <= n,
{
    proof {
        lemma_chunk_wf(n as int, w as int, k as int);
        if k + 1 < w {
            lemma_chunk_wf(n as int, w as int, k as int + 1);
        }
    }
    let q = n / w;
    let lo = k * q;
    let hi = if k == w - 1 {
        n
    } else {
        (k + 1) * q
    };
    (lo, hi)
}

} // verus!
