//! Block offsets.
//!
//! A factor's Gaussian and the joint distribution both live over a
//! concatenation of variable blocks.  `off(dims, t)` is the starting index of
//! block `t`; `block_of(dims, p)` recovers the block containing position `p`.

use vstd::prelude::*;

verus! {

/// The starting index of block `t`: the sum of the sizes of the blocks
/// before it.
pub open spec fn off(dims: Seq<usize>, t: int) -> int
    decreases t,
{
    if t <= 0 {
        0
    } else {
        off(dims, t - 1) + dims[t - 1]
    }
}

/// The total size of all blocks.
pub open spec fn total(dims: Seq<usize>) -> int {
    off(dims, dims.len() as int)
}

pub proof fn lemma_off_monotone(dims: Seq<usize>, a: int, b: int)
    requires
        0 <= a <= b <= dims.len(),
    ensures
        off(dims, a) <= off(dims, b),
    decreases b - a,
{
    if a < b {
        lemma_off_monotone(dims, a, b - 1);
    }
}

pub proof fn lemma_off_nonneg(dims: Seq<usize>, t: int)
    requires
        0 <= t <= dims.len(),
    ensures
        0 <= off(dims, t),
{
    lemma_off_monotone(dims, 0, t);
}

/// Search for the block containing `p`, starting from block `t`.
pub open spec fn block_search(dims: Seq<usize>, p: int, t: int) -> int
    decreases dims.len() - t,
{
    if t < 0 || t >= dims.len() {
        dims.len() as int
    } else if p < off(dims, t + 1) {
        t
    } else {
        block_search(dims, p, t + 1)
    }
}

/// The block containing position `p`.
pub open spec fn block_of(dims: Seq<usize>, p: int) -> int {
    block_search(dims, p, 0)
}

proof fn lemma_block_search_correct(dims: Seq<usize>, p: int, t: int)
    requires
        0 <= t <= dims.len(),
        off(dims, t) <= p < total(dims),
    ensures
        t <= block_search(dims, p, t) < dims.len(),
        off(dims, block_search(dims, p, t)) <= p < off(dims, block_search(dims, p, t) + 1),
    decreases dims.len() - t,
{
    if t == dims.len() {
        assert(false);
    } else {
        if p < off(dims, t + 1) {
        } else {
            lemma_block_search_correct(dims, p, t + 1);
        }
    }
}

/// For a position inside the concatenation, `block_of` returns a real block
/// whose range contains the position.
pub proof fn lemma_block_of_correct(dims: Seq<usize>, p: int)
    requires
        0 <= p < total(dims),
    ensures
        0 <= block_of(dims, p) < dims.len(),
        off(dims, block_of(dims, p)) <= p < off(dims, block_of(dims, p)) + dims[block_of(dims, p)],
    decreases dims.len(),
{
    lemma_block_search_correct(dims, p, 0);
    assert(off(dims, block_of(dims, p) + 1) == off(dims, block_of(dims, p)) + dims[block_of(
        dims,
        p,
    )]);
}

/// Block ranges are disjoint: a position inside block `s` has `block_of`
/// equal to `s`.
pub proof fn lemma_block_of_unique(dims: Seq<usize>, p: int, s: int)
    requires
        0 <= s < dims.len(),
        off(dims, s) <= p < off(dims, s) + dims[s],
    ensures
        block_of(dims, p) == s,
{
    assert(off(dims, s + 1) == off(dims, s) + dims[s]);
    lemma_off_monotone(dims, s + 1, dims.len() as int);
    lemma_off_nonneg(dims, s);
    lemma_block_of_correct(dims, p);
    let b = block_of(dims, p);
    if b < s {
        lemma_off_monotone(dims, b + 1, s);
        assert(false);
    } else if b > s {
        lemma_off_monotone(dims, s + 1, b);
        assert(false);
    }
}

/// Compute the starting index of block `t`.
pub fn offset_of(dims: &Vec<usize>, t: usize) -> (r: usize)
    requires
        t <= dims@.len(),
        total(dims@) <= usize::MAX,
    ensures
        r == off(dims@, t as int),
{
    let mut acc: usize = 0;
    let mut i: usize = 0;
    while i < t
        invariant
            i <= t,
            t <= dims@.len(),
            total(dims@) <= usize::MAX,
            acc == off(dims@, i as int),
        decreases t - i,
    {
        proof {
            lemma_off_monotone(dims@, i + 1, dims@.len() as int);
            lemma_off_nonneg(dims@, i as int);
        }
        acc = acc + dims[i];
        i += 1;
    }
    acc
}


pub proof fn lemma_off_strict(dims: Seq<usize>, a: int, b: int)
    requires
        0 <= a < b <= dims.len(),
        forall|t: int| 0 <= t < dims.len() ==> (#[trigger] dims[t]) >= 1,
    ensures
        off(dims, a) < off(dims, b),
    decreases b - a,
{
    if a + 1 < b {
        lemma_off_strict(dims, a + 1, b);
    }
}

/// Find the block containing position `p` together with its starting offset.
pub fn block_index(dims: &Vec<usize>, p: usize) -> (r: (usize, usize))
    requires
        forall|t: int| 0 <= t < dims@.len() ==> (#[trigger] dims@[t]) >= 1,
        0 <= p < total(dims@),
        total(dims@) <= usize::MAX,
    ensures
        r.0 == block_of(dims@, p as int),
        r.0 < dims@.len(),
        r.1 == off(dims@, r.0 as int),
        r.1 <= p < r.1 + dims@[r.0 as int],
{
    let n: usize = dims.len();
    let mut t: usize = 0;
    let mut acc: usize = 0;
    proof {
        lemma_block_of_correct(dims@, p as int);
    }
    loop
        invariant_except_break
            n == dims@.len(),
            t < n,
            acc == off(dims@, t as int),
            acc <= p,
            p < total(dims@),
            total(dims@) <= usize::MAX,
            forall|t2: int| 0 <= t2 < dims@.len() ==> (#[trigger] dims@[t2]) >= 1,
        ensures
            t < dims@.len(),
            acc == off(dims@, t as int),
            acc <= p < acc + dims@[t as int],
        decreases dims@.len() - t,
    {
        proof {
            assert(off(dims@, t + 1 as int) == off(dims@, t as int) + dims@[t as int]);
            lemma_off_monotone(dims@, t + 1 as int, dims@.len() as int);
        }
        let step: usize = acc + dims[t];
        if step <= p {
            proof {
                if t + 1 == dims@.len() {
                    assert(false);
                }
            }
            acc = step;
            t += 1;
        } else {
            break;
        }
    }
    proof {
        lemma_block_of_unique(dims@, p as int, t as int);
    }
    (t, acc)
}
} // verus!
