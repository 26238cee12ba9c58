use vstd::prelude::*;
use num_bigint::BigInt;
use crate::bigint;
use crate::bigint::int_of;
use crate::errors::PiError;

verus! {

/// Chudnovsky series constants: term k of the series for 1/pi is
/// `(-1)^k (6k)! (A + B k) / ((3k)! (k!)^3 C^(3k))`.
pub const CHUD_A: u64 = 13591409;
pub const CHUD_B: u64 = 545140134;
pub const CHUD_C: u64 = 640320;

/// `640320^3 / 24`: the factor by which the term denominator grows per index,
/// divided by the matching factor 24 of the numerator growth.
pub const CHUD_C3_OVER_24: u64 = 10939058860032000;

/// Upper bound on term indexes accepted by the splitter.  It keeps every
/// base-case factor product inside `u64`, and lies well above the term count
/// that the planner can request for the largest allowed digit count.
pub const MAX_SPLIT_TERMS: u64 = 80000;

/// Numerator ratio of term k to term k-1 (without the linear weight):
/// 1 for k = 0, and `-(6k-5)(2k-1)(6k-1)` for k >= 1.
pub open spec fn term_t(k: nat) -> int {
    if k == 0 {
        1
    } else {
        -((6 * (k as int) - 5) * (2 * (k as int) - 1) * (6 * (k as int) - 1))
    }
}

/// Denominator ratio of term k to term k-1: 1 for k = 0, and
/// `k^3 * 640320^3 / 24` for k >= 1.
pub open spec fn term_q(k: nat) -> int {
    if k == 0 {
        1
    } else {
        (k as int) * (k as int) * (k as int) * (CHUD_C3_OVER_24 as int)
    }
}

/// The weighted numerator contributed by the single term k:
/// `(A + B k) * term_t(k)`.
pub open spec fn term_p(k: nat) -> int {
    (CHUD_A + CHUD_B * k) * term_t(k)
}

/// Product of the numerator ratios over the half-open range `[a, b)`.
pub open spec fn prod_t(a: nat, b: nat) -> int
    decreases b - a,
{
    if a >= b {
        1
    } else {
        term_t(a) * prod_t((a + 1) as nat, b)
    }
}

/// Product of the denominator ratios over `[a, b)`.
pub open spec fn prod_q(a: nat, b: nat) -> int
    decreases b - a,
{
    if a >= b {
        1
    } else {
        term_q(a) * prod_q((a + 1) as nat, b)
    }
}

/// Weighted numerator sum over `[a, b)`.  The partial sum of the series over
/// `[a, b)`, with term values taken relative to index a, is the rational
/// `sum_p(a, b) / prod_q(a, b)`; for `a == 0` that is the true partial sum of
/// the Chudnovsky series.
pub open spec fn sum_p(a: nat, b: nat) -> int
    decreases b - a,
{
    if a >= b {
        0
    } else {
        term_p(a) * prod_q((a + 1) as nat, b) + term_t(a) * sum_p((a + 1) as nat, b)
    }
}

/// The exact triple `(P, Q, T)` of a term range.
pub open spec fn split_value(a: nat, b: nat) -> (int, int, int) {
    (sum_p(a, b), prod_q(a, b), prod_t(a, b))
}

/// The merge rule over mathematical triples:
/// `P = P1 Q2 + P2 T1, Q = Q1 Q2, T = T1 T2`.
pub open spec fn merge_pqt(x: (int, int, int), y: (int, int, int)) -> (int, int, int) {
    (x.0 * y.1 + y.0 * x.2, x.1 * y.1, x.2 * y.2)
}

/// Splitting `[a, b)` at any midpoint m and merging the two halves yields the
/// triple of the whole range: the result of binary splitting is independent
/// of the chosen split points.
pub proof fn lemma_split_point_independence(a: nat, m: nat, b: nat)
    requires
        a <= m <= b,
    ensures
        merge_pqt(split_value(a, m), split_value(m, b)) == split_value(a, b),
    decreases m - a,
{
    if a == m {
        assert(sum_p(a, a) == 0);
        assert(prod_q(a, a) == 1);
        assert(prod_t(a, a) == 1);
    } else {
        lemma_split_point_independence((a + 1) as nat, m, b);
        let tp = term_p(a);
        let tt = term_t(a);
        let tq = term_q(a);
        let p1 = sum_p((a + 1) as nat, m);
        let q1 = prod_q((a + 1) as nat, m);
        let t1 = prod_t((a + 1) as nat, m);
        let p2 = sum_p(m, b);
        let q2 = prod_q(m, b);
        let t2 = prod_t(m, b);
        vstd::arithmetic::mul::lemma_mul_is_distributive_add_other_way(q2, tp * q1, tt * p1);
        vstd::arithmetic::mul::lemma_mul_is_associative(tp, q1, q2);
        vstd::arithmetic::mul::lemma_mul_is_distributive_add(tt, p1 * q2, p2 * t1);
        vstd::arithmetic::mul::lemma_mul_is_associative(tt, p1, q2);
        vstd::arithmetic::mul::lemma_mul_is_commutative(p2, tt * t1);
        vstd::arithmetic::mul::lemma_mul_is_associative(tt, t1, p2);
        vstd::arithmetic::mul::lemma_mul_is_commutative(t1, p2);
        assert((tp * q1 + tt * p1) * q2 + p2 * (tt * t1) == tp * (q1 * q2) + tt * (p1 * q2 + p2
            * t1));
        vstd::arithmetic::mul::lemma_mul_is_associative(tq, q1, q2);
        vstd::arithmetic::mul::lemma_mul_is_associative(tt, t1, t2);
    }
}

/// An exact partial result of binary splitting over a term range: the
/// integers P, Q, T, immutable once returned.
#[derive(Debug)]
pub struct SplitResult {
    pub p: BigInt,
    pub q: BigInt,
    pub t: BigInt,
}

/// `r` holds exactly the mathematical triple of the range `[a, b)`.
pub open spec fn holds_range(r: SplitResult, a: nat, b: nat) -> bool {
    &&& int_of(r.p) == sum_p(a, b)
    &&& int_of(r.q) == prod_q(a, b)
    &&& int_of(r.t) == prod_t(a, b)
}

/// Exact single-term triple for index k, from the closed-form ratio factors.
fn base_case(k: u64) -> (r: SplitResult)
    requires
        k < MAX_SPLIT_TERMS,
    ensures
        int_of(r.p) == term_p(k as nat),
        int_of(r.q) == term_q(k as nat),
        int_of(r.t) == term_t(k as nat),
{
    if k == 0 {
        SplitResult {
            p: bigint::from_u64(CHUD_A),
            q: bigint::from_u64(1),
            t: bigint::from_u64(1),
        }
    } else {
        let f1: u64 = 6 * k - 5;
        let f2: u64 = 2 * k - 1;
        let f3: u64 = 6 * k - 1;
        proof {
            vstd::arithmetic::mul::lemma_mul_upper_bound(f1 as int, 480000, f2 as int, 160000);
            vstd::arithmetic::mul::lemma_mul_upper_bound(
                (f1 * f2) as int,
                76800000000,
                f3 as int,
                480000,
            );
            vstd::arithmetic::mul::lemma_mul_upper_bound(k as int, 80000, k as int, 80000);
            vstd::arithmetic::mul::lemma_mul_upper_bound(
                (k * k) as int,
                6400000000,
                k as int,
                80000,
            );
        }
        let tmag: u64 = f1 * f2 * f3;
        let t = bigint::neg(&bigint::from_u64(tmag));
        let weight: u64 = CHUD_A + CHUD_B * k;
        let p = bigint::mul(&bigint::from_u64(weight), &t);
        let k3: u64 = k * k * k;
        let q = bigint::mul(&bigint::from_u64(k3), &bigint::from_u64(CHUD_C3_OVER_24));
        SplitResult { p, q, t }
    }
}

/// Merge two adjacent exact partial results by the rule
/// `P = P1 Q2 + P2 T1, Q = Q1 Q2, T = T1 T2`.
pub fn merge_split(x: &SplitResult, y: &SplitResult) -> (r: SplitResult)
    ensures
        int_of(r.p) == int_of(x.p) * int_of(y.q) + int_of(y.p) * int_of(x.t),
        int_of(r.q) == int_of(x.q) * int_of(y.q),
        int_of(r.t) == int_of(x.t) * int_of(y.t),
{
    let p = bigint::add(&bigint::mul(&x.p, &y.q), &bigint::mul(&y.p, &x.t));
    let q = bigint::mul(&x.q, &y.q);
    let t = bigint::mul(&x.t, &y.t);
    SplitResult { p, q, t }
}

/// Pure recursive divide-and-conquer evaluation of the range `[a, b)`:
/// the returned triple is exactly `(sum_p(a, b), prod_q(a, b), prod_t(a, b))`,
/// independent of how the recursion splits the range.  Rejects a malformed
/// range (`a >= b`) with `InvalidRange`.
pub fn compute_binary_split(a: u64, b: u64) -> (r: Result<SplitResult, PiError>)
    requires
        b <= MAX_SPLIT_TERMS,
    ensures
        r.is_ok() <==> a < b,
        a < b ==> (r matches Ok(v) && holds_range(v, a as nat, b as nat)),
        a >= b ==> (r matches Err(e) && e == PiError::InvalidRange),
    decreases b - a,
{
    if a >= b {
        Err(PiError::InvalidRange)
    } else if b - a == 1 {
        let r = base_case(a);
        assert(prod_q((a + 1) as nat, b as nat) == 1);
        assert(prod_t((a + 1) as nat, b as nat) == 1);
        assert(sum_p((a + 1) as nat, b as nat) == 0);
        Ok(r)
    } else {
        let m = a + (b - a) / 2;
        let left = match compute_binary_split(a, m) {
            Ok(v) => v,
            Err(_) => {
                return Err(PiError::WorkerFailure);
            },
        };
        let right = match compute_binary_split(m, b) {
            Ok(v) => v,
            Err(_) => {
                return Err(PiError::WorkerFailure);
            },
        };
        proof {
            lemma_split_point_independence(a as nat, m as nat, b as nat);
        }
        Ok(merge_split(&left, &right))
    }
}

} // verus!
