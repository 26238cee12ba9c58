use vstd::prelude::*;
use crate::bigint;
use crate::bigint::int_of;
use crate::errors::PiError;
use crate::splitter::{
    compute_binary_split, holds_range, lemma_split_point_independence, merge_pqt, merge_split,
    prod_q, prod_t, split_value, sum_p, SplitResult, MAX_SPLIT_TERMS,
};

verus! {

/// A contiguous term range `[start, end)` exclusively owned by one worker for
/// the duration of its computation.
#[derive(Clone, Copy, Debug, PartialEq, Eq, Structural)]
pub struct WorkAssignment {
    pub start: u64,
    pub end: u64,
}

/// The ceiling of `terms / workers`: the size of a full work chunk.
pub open spec fn chunk_size(terms: nat, workers: nat) -> nat
    recommends
        terms >= 1,
        workers >= 1,
{
    (terms - 1) as nat / workers + 1
}

/// `rs` partitions `[0, terms)` into nonempty, contiguous, ascending ranges.
pub open spec fn valid_partition(rs: Seq<WorkAssignment>, terms: nat) -> bool {
    &&& forall|i: int| 0 <= i < rs.len() ==> (#[trigger] rs[i]).start < rs[i].end
    &&& forall|i: int| 0 <= i < rs.len() ==> (#[trigger] rs[i]).end <= terms
    &&& forall|i: int| 0 <= i < rs.len() - 1 ==> (#[trigger] rs[i]).end == rs[i + 1].start
    &&& terms > 0 ==> rs.len() >= 1 && rs[0].start == 0 && rs[rs.len() - 1].end == terms
    &&& terms == 0 ==> rs.len() == 0
}

/// Partition `[0, terms)` up front into at most `workers` contiguous,
/// near-equal sub-ranges: every range but the last has exactly the chunk
/// size, and the last is no larger.
pub fn partition_ranges(terms: u64, workers: u64) -> (r: Vec<WorkAssignment>)
    requires
        1 <= terms,
        1 <= workers,
    ensures
        valid_partition(r@, terms as nat),
        r@.len() <= workers,
        forall|i: int|
            0 <= i < r@.len() - 1 ==> (#[trigger] r@[i]).end - r@[i].start == chunk_size(
                terms as nat,
                workers as nat,
            ),
        forall|i: int|
            0 <= i < r@.len() ==> (#[trigger] r@[i]).end - r@[i].start <= chunk_size(
                terms as nat,
                workers as nat,
            ),
{
    proof {
        vstd::arithmetic::div_mod::lemma_div_nonincreasing((terms - 1) as int, workers as int);
        vstd::arithmetic::div_mod::lemma_div_pos_is_pos((terms - 1) as int, workers as int);
    }
    let chunk: u64 = (terms - 1) / workers + 1;
    proof {
        let t1 = (terms - 1) as int;
        let w = workers as int;
        let q = t1 / w;
        vstd::arithmetic::div_mod::lemma_fundamental_div_mod(t1, w);
        vstd::arithmetic::div_mod::lemma_mod_bound(t1, w);
        vstd::arithmetic::mul::lemma_mul_is_distributive_add(w, q, 1);
        assert(w * (q + 1) == w * q + w * 1);
        assert(workers * chunk >= terms);
    }
    let mut r: Vec<WorkAssignment> = Vec::new();
    let mut start: u64 = 0;
    while start < terms
        invariant
            1 <= terms <= u64::MAX,
            1 <= chunk <= terms,
            chunk == chunk_size(terms as nat, workers as nat),
            start <= terms,
            start == r@.len() * chunk || (start == terms && r@.len() >= 1),
            r@.len() >= 1 ==> r@[r@.len() - 1].end == start,
            r@.len() >= 1 ==> r@[0].start == 0,
            forall|i: int| 0 <= i < r@.len() ==> (#[trigger] r@[i]).start == i * chunk,
            forall|i: int| 0 <= i < r@.len() ==> (#[trigger] r@[i]).start < r@[i].end,
            forall|i: int| 0 <= i < r@.len() ==> (#[trigger] r@[i]).end <= terms,
            forall|i: int|
                0 <= i < r@.len() - 1 ==> (#[trigger] r@[i]).end == r@[i + 1].start
                    && r@[i].end - r@[i].start == chunk,
            forall|i: int| 0 <= i < r@.len() ==> (#[trigger] r@[i]).end - r@[i].start <= chunk,
            workers * chunk >= terms,
        decreases terms - start,
    {
        let end: u64 = if terms - start < chunk {
            terms
        } else {
            start + chunk
        };
        proof {
            vstd::arithmetic::mul::lemma_mul_is_distributive_add_other_way(
                chunk as int,
                r@.len() as int,
                1,
            );
            assert((r@.len() + 1) * chunk == r@.len() * chunk + 1 * chunk);
            if r@.len() >= 1 {
                vstd::arithmetic::mul::lemma_mul_is_distributive_add_other_way(
                    chunk as int,
                    r@.len() - 1,
                    1,
                );
                assert((r@.len() - 1 + 1) * chunk == (r@.len() - 1) * chunk + 1 * chunk);
            }
        }
        r.push(WorkAssignment { start, end });
        start = end;
    }
    proof {
        if r@.len() > workers {
            let j = r@.len() - 1;
            assert(r@[j].start == j * chunk);
            vstd::arithmetic::mul::lemma_mul_inequality(workers as int, j, chunk as int);
            assert(workers * chunk <= j * chunk);
            assert(r@[j].start < terms);
        }
    }
    r
}

/// The end of the range prefix covered by the first `i` assignments.
pub open spec fn prefix_end(rs: Seq<WorkAssignment>, i: nat) -> nat {
    if i == 0 {
        0
    } else {
        rs[i - 1].end as nat
    }
}

/// The strict left-to-right fold of the per-range triples of the first `i`
/// assignments, under the merge rule, starting from the empty-range triple
/// `(0, 1, 1)`.
pub open spec fn folded(rs: Seq<WorkAssignment>, i: nat) -> (int, int, int)
    decreases i,
{
    if i == 0 {
        (0int, 1int, 1int)
    } else {
        merge_pqt(
            folded(rs, (i - 1) as nat),
            split_value(rs[i - 1].start as nat, rs[i - 1].end as nat),
        )
    }
}

proof fn lemma_fold_partition_prefix(rs: Seq<WorkAssignment>, terms: nat, i: nat)
    requires
        valid_partition(rs, terms),
        i <= rs.len(),
    ensures
        folded(rs, i) == split_value(0, prefix_end(rs, i)),
    decreases i,
{
    if i == 0 {
        assert(sum_p(0, 0) == 0);
        assert(prod_q(0, 0) == 1);
        assert(prod_t(0, 0) == 1);
    } else {
        lemma_fold_partition_prefix(rs, terms, (i - 1) as nat);
        let s = rs[i - 1].start as nat;
        let e = rs[i - 1].end as nat;
        assert(prefix_end(rs, (i - 1) as nat) == s);
        lemma_split_point_independence(0, s, e);
    }
}

/// Determinism of the static-range reduction: folding the exact triples of
/// the ranges of any valid partition of `[0, terms)` strictly left to right
/// yields the triple of the whole range.  The partition - and so the worker
/// count that produced it - never shows in the result.
pub proof fn lemma_partition_fold_deterministic(rs: Seq<WorkAssignment>, terms: nat)
    requires
        valid_partition(rs, terms),
    ensures
        folded(rs, rs.len()) == split_value(0, terms),
{
    lemma_fold_partition_prefix(rs, terms, rs.len());
    if terms == 0 {
        assert(sum_p(0, 0) == 0);
        assert(prod_q(0, 0) == 1);
        assert(prod_t(0, 0) == 1);
    }
}

/// Evaluate the whole range `[0, terms)`: partition it into at most `workers`
/// contiguous sub-ranges, compute each range independently by binary
/// splitting, and fold the per-range triples strictly left to right with the
/// merge rule.  The contract pins the result to the mathematical triple of
/// `[0, terms)` alone: it is the same for every worker count and for every
/// split point, which is the determinism guarantee of the static-range
/// reduction.
pub fn chudnovsky_triple(terms: u64, workers: u64) -> (r: SplitResult)
    requires
        1 <= terms <= MAX_SPLIT_TERMS,
        1 <= workers,
    ensures
        holds_range(r, 0, terms as nat),
{
    let ranges = partition_ranges(terms, workers);
    let mut acc = SplitResult {
        p: bigint::from_u64(0),
        q: bigint::from_u64(1),
        t: bigint::from_u64(1),
    };
    let mut i: usize = 0;
    while i < ranges.len()
        invariant
            valid_partition(ranges@, terms as nat),
            terms <= MAX_SPLIT_TERMS,
            i <= ranges@.len(),
            ranges@.len() >= 1,
            holds_range(
                acc,
                0,
                (if i == ranges@.len() {
                    terms as nat
                } else {
                    ranges@[i as int].start as nat
                }),
            ),
        decreases ranges@.len() - i,
    {
        let a = ranges[i].start;
        let b = ranges[i].end;
        let part = match compute_binary_split(a, b) {
            Ok(v) => v,
            Err(_) => {
                proof {
                    assert(false);
                }
                return acc;
            },
        };
        proof {
            lemma_split_point_independence(0, a as nat, b as nat);
        }
        acc = merge_split(&acc, &part);
        i = i + 1;
    }
    acc
}

} // verus!
