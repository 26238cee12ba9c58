use vstd::prelude::*;
use num_bigint::BigInt;
use vstd::arithmetic::power::pow;
use crate::bigint;
use crate::bigint::int_of;
use crate::planner::{MAX_BBP_TERMS, MAX_PRECISION_BITS};

verus! {

/// `pow(2, e)`: the binary scale factor of the working precision.
pub open spec fn pow2(e: nat) -> int {
    pow(2, e)
}

/// Round-to-nearest division for a nonnegative dividend and positive
/// divisor, halves rounded up: `floor((2n + d) / 2d)`.
pub open spec fn round_div(n: int, d: int) -> int
    recommends
        n >= 0,
        d > 0,
{
    (2 * n + d) / (2 * d)
}

/// Term `k` of the series at working precision `prec`, in binary fixed
/// point: `(4/(8k+1) - 2/(8k+4) - 1/(8k+5) - 1/(8k+6)) / 16^k` scaled by
/// `2^prec`, each reciprocal evaluated with round-to-nearest division.
pub open spec fn bbp_term_scaled(k: nat, prec: nat) -> int {
    let p16 = pow(16, k);
    round_div(4 * pow2(prec), (8 * k + 1) * p16) - round_div(2 * pow2(prec), (8 * k + 4) * p16)
        - round_div(pow2(prec), (8 * k + 5) * p16) - round_div(pow2(prec), (8 * k + 6) * p16)
}

/// The fixed-point partial sum of the series over `[a, b)`.
pub open spec fn bbp_sum_scaled(a: nat, b: nat, prec: nat) -> int
    decreases b - a,
{
    if a >= b {
        0
    } else {
        bbp_term_scaled(a, prec) + bbp_sum_scaled((a + 1) as nat, b, prec)
    }
}

/// Extending a fixed-point sum by its next term.
pub proof fn lemma_bbp_sum_extend(a: nat, b: nat, prec: nat)
    requires
        a <= b,
    ensures
        bbp_sum_scaled(a, (b + 1) as nat, prec) == bbp_sum_scaled(a, b, prec) + bbp_term_scaled(
            b,
            prec,
        ),
    decreases b - a,
{
    if a < b {
        lemma_bbp_sum_extend((a + 1) as nat, b, prec);
    } else {
        assert(bbp_sum_scaled((b + 1) as nat, (b + 1) as nat, prec) == 0);
        assert(bbp_sum_scaled(b, b, prec) == 0);
    }
}

/// Splitting a fixed-point sum at any midpoint: addition is exact, so the
/// summation is independent of how the term range is chunked and in which
/// order the chunk sums are merged.
pub proof fn lemma_bbp_sum_split(a: nat, m: nat, b: nat, prec: nat)
    requires
        a <= m <= b,
    ensures
        bbp_sum_scaled(a, b, prec) == bbp_sum_scaled(a, m, prec) + bbp_sum_scaled(m, b, prec),
    decreases m - a,
{
    if a < m {
        lemma_bbp_sum_split((a + 1) as nat, m, b, prec);
    } else {
        assert(bbp_sum_scaled(a, a, prec) == 0);
    }
}

/// Round-to-nearest division of a nonnegative value by a positive divisor.
fn rounded_div(n: &BigInt, d: &BigInt) -> (r: BigInt)
    requires
        int_of(*n) >= 0,
        int_of(*d) > 0,
    ensures
        int_of(r) == round_div(int_of(*n), int_of(*d)),
{
    let two = bigint::from_u64(2);
    let num = bigint::add(&bigint::mul(&two, n), d);
    let den = bigint::mul(&two, d);
    let (q, _rem) = bigint::div_rem(&num, &den);
    q
}

/// BBP term `k` at working precision `prec`, as an exact scaled integer.
pub fn bbp_term(k: u64, prec: u64) -> (r: BigInt)
    requires
        k <= MAX_BBP_TERMS,
        prec <= MAX_PRECISION_BITS,
    ensures
        int_of(r) == bbp_term_scaled(k as nat, prec as nat),
{
    proof {
        vstd::arithmetic::power::lemma_pow_positive(2, prec as nat);
        vstd::arithmetic::power::lemma_pow_positive(16, k as nat);
        vstd::arithmetic::mul::lemma_mul_strictly_positive(
            (8 * k + 1) as int,
            pow(16, k as nat),
        );
        vstd::arithmetic::mul::lemma_mul_strictly_positive(
            (8 * k + 4) as int,
            pow(16, k as nat),
        );
        vstd::arithmetic::mul::lemma_mul_strictly_positive(
            (8 * k + 5) as int,
            pow(16, k as nat),
        );
        vstd::arithmetic::mul::lemma_mul_strictly_positive(
            (8 * k + 6) as int,
            pow(16, k as nat),
        );
        vstd::arithmetic::mul::lemma_mul_nonnegative(4, pow2(prec as nat));
        vstd::arithmetic::mul::lemma_mul_nonnegative(2, pow2(prec as nat));
    }
    let p2 = bigint::pow_u32(&bigint::from_u64(2), prec as u32);
    let p16 = bigint::pow_u32(&bigint::from_u64(16), k as u32);
    let t1 = rounded_div(
        &bigint::mul(&bigint::from_u64(4), &p2),
        &bigint::mul(&bigint::from_u64(8 * k + 1), &p16),
    );
    let t2 = rounded_div(
        &bigint::mul(&bigint::from_u64(2), &p2),
        &bigint::mul(&bigint::from_u64(8 * k + 4), &p16),
    );
    let t3 = rounded_div(&p2, &bigint::mul(&bigint::from_u64(8 * k + 5), &p16));
    let t4 = rounded_div(&p2, &bigint::mul(&bigint::from_u64(8 * k + 6), &p16));
    let d1 = bigint::add(&t1, &bigint::neg(&t2));
    let d2 = bigint::add(&d1, &bigint::neg(&t3));
    bigint::add(&d2, &bigint::neg(&t4))
}

/// The fixed-point sum of BBP terms `[a, b)` at working precision `prec`.
/// Addition is exact, so the result is independent of how a caller chunks
/// the range (see `lemma_bbp_sum_split`).
pub fn bbp_range_sum(a: u64, b: u64, prec: u64) -> (r: BigInt)
    requires
        a <= b,
        b <= MAX_BBP_TERMS,
        prec <= MAX_PRECISION_BITS,
    ensures
        int_of(r) == bbp_sum_scaled(a as nat, b as nat, prec as nat),
{
    let mut acc = bigint::from_u64(0);
    let mut k = a;
    while k < b
        invariant
            a <= k <= b,
            b <= MAX_BBP_TERMS,
            prec <= MAX_PRECISION_BITS,
            int_of(acc) == bbp_sum_scaled(a as nat, k as nat, prec as nat),
        decreases b - k,
    {
        proof {
            lemma_bbp_sum_extend(a as nat, k as nat, prec as nat);
        }
        let t = bbp_term(k, prec);
        acc = bigint::add(&acc, &t);
        k = k + 1;
    }
    acc
}

} // verus!
