use vstd::prelude::*;
use num_bigint::BigInt;
use vstd::arithmetic::power::pow;
use crate::bigint;
use crate::bigint::int_of;
use crate::decimal::pow10;
use crate::splitter::{CHUD_A, CHUD_B, CHUD_C, CHUD_C3_OVER_24, MAX_SPLIT_TERMS};

verus! {

/// The factorial of `n`.
pub open spec fn fact(n: nat) -> int
    decreases n,
{
    if n == 0 {
        1
    } else {
        n * fact((n - 1) as nat)
    }
}

/// `(-1)^k`: the alternating sign of the series.
pub open spec fn pow_neg1(k: nat) -> int {
    if k % 2 == 0 {
        1
    } else {
        -1
    }
}

/// The exact numerator of Chudnovsky term `k`:
/// `(-1)^k * (6k)! * (A + B k)`.
pub open spec fn term_numerator(k: nat) -> int {
    pow_neg1(k) * fact(6 * k) * (CHUD_A + CHUD_B * k)
}

/// The exact denominator of Chudnovsky term `k`:
/// `(3k)! * (k!)^3 * C^(3k)`.
pub open spec fn term_denominator(k: nat) -> int {
    fact(3 * k) * pow(fact(k), 3) * pow(CHUD_C as int, 3 * k)
}

/// Appending one factor to a factorial: `(n+1)! == n! * (n+1)`.
proof fn lemma_fact_extend(n: nat)
    ensures
        fact((n + 1) as nat) == fact(n) * (n + 1),
{
    vstd::arithmetic::mul::lemma_mul_is_commutative((n + 1) as int, fact(n));
}

/// The factorial of `n`, as an exact integer.
pub fn factorial(n: u64) -> (r: BigInt)
    ensures
        int_of(r) == fact(n as nat),
{
    let mut acc = bigint::from_u64(1);
    let mut i: u64 = 0;
    while i < n
        invariant
            i <= n,
            int_of(acc) == fact(i as nat),
        decreases n - i,
    {
        proof {
            lemma_fact_extend(i as nat);
        }
        i = i + 1;
        acc = bigint::mul(&acc, &bigint::from_u64(i));
    }
    acc
}

/// Reusable scratch state for sequential exact term evaluation: the three
/// factorials of the current index, advanced by recurrence instead of being
/// recomputed, which bounds allocation across calls within one worker.
pub struct ChudnovskyCalculator {
    pub k: u64,
    pub k_factorial: BigInt,
    pub three_k_factorial: BigInt,
    pub six_k_factorial: BigInt,
}

impl ChudnovskyCalculator {
    /// The scratch state holds exactly the factorials of its index.
    pub open spec fn wf(self) -> bool {
        &&& self.k <= MAX_SPLIT_TERMS
        &&& int_of(self.k_factorial) == fact(self.k as nat)
        &&& int_of(self.three_k_factorial) == fact((3 * self.k) as nat)
        &&& int_of(self.six_k_factorial) == fact((6 * self.k) as nat)
    }

    /// Fresh scratch state at index zero.
    pub fn new() -> (r: Self)
        ensures
            r.wf(),
            r.k == 0,
    {
        ChudnovskyCalculator {
            k: 0,
            k_factorial: bigint::from_u64(1),
            three_k_factorial: bigint::from_u64(1),
            six_k_factorial: bigint::from_u64(1),
        }
    }

    /// Scratch state rebuilt directly at index `k`, for a worker that
    /// starts mid-range rather than assuming continuation from another
    /// worker's sequence.
    pub fn at_index(k: u64) -> (r: Self)
        requires
            k <= MAX_SPLIT_TERMS,
        ensures
            r.wf(),
            r.k == k,
    {
        ChudnovskyCalculator {
            k,
            k_factorial: factorial(k),
            three_k_factorial: factorial(3 * k),
            six_k_factorial: factorial(6 * k),
        }
    }

    /// Advance the scratch factorials from index `k - 1` to `k` by the
    /// recurrences `k! = (k-1)! * k`, `(3k)! = (3k-3)! * (3k-2)(3k-1)(3k)`,
    /// and `(6k)! = (6k-6)! * (6k-5) * ... * (6k)`.  Valid only for strictly
    /// sequential indexes: a worker starting mid-range must rebuild its
    /// state at its own starting index.
    pub fn update_factorials(&mut self, k: u64)
        requires
            old(self).wf(),
            k == old(self).k + 1,
            k <= MAX_SPLIT_TERMS,
        ensures
            final(self).wf(),
            final(self).k == k,
    {
        proof {
            lemma_fact_extend((k - 1) as nat);
        }
        self.k_factorial = bigint::mul(&self.k_factorial, &bigint::from_u64(k));
        proof {
            lemma_fact_extend((3 * k - 3) as nat);
            lemma_fact_extend((3 * k - 2) as nat);
            lemma_fact_extend((3 * k - 1) as nat);
        }
        self.three_k_factorial = bigint::mul(
            &self.three_k_factorial,
            &bigint::from_u64(3 * k - 2),
        );
        self.three_k_factorial = bigint::mul(
            &self.three_k_factorial,
            &bigint::from_u64(3 * k - 1),
        );
        self.three_k_factorial = bigint::mul(&self.three_k_factorial, &bigint::from_u64(3 * k));
        proof {
            lemma_fact_extend((6 * k - 6) as nat);
            lemma_fact_extend((6 * k - 5) as nat);
            lemma_fact_extend((6 * k - 4) as nat);
            lemma_fact_extend((6 * k - 3) as nat);
            lemma_fact_extend((6 * k - 2) as nat);
            lemma_fact_extend((6 * k - 1) as nat);
        }
        self.six_k_factorial = bigint::mul(&self.six_k_factorial, &bigint::from_u64(6 * k - 5));
        self.six_k_factorial = bigint::mul(&self.six_k_factorial, &bigint::from_u64(6 * k - 4));
        self.six_k_factorial = bigint::mul(&self.six_k_factorial, &bigint::from_u64(6 * k - 3));
        self.six_k_factorial = bigint::mul(&self.six_k_factorial, &bigint::from_u64(6 * k - 2));
        self.six_k_factorial = bigint::mul(&self.six_k_factorial, &bigint::from_u64(6 * k - 1));
        self.six_k_factorial = bigint::mul(&self.six_k_factorial, &bigint::from_u64(6 * k));
        self.k = k;
    }

    /// The exact term at index `k`, as the closed-form pair
    /// `(term_numerator(k), term_denominator(k))`.  Indexes must be visited
    /// strictly sequentially, so that the scratch recurrences apply.
    pub fn compute_term(&mut self, k: u64) -> (r: (BigInt, BigInt))
        requires
            old(self).wf(),
            (k == 0 && old(self).k == 0) || k == old(self).k + 1,
            k <= MAX_SPLIT_TERMS,
        ensures
            final(self).wf(),
            final(self).k == k,
            int_of(r.0) == term_numerator(k as nat),
            int_of(r.1) == term_denominator(k as nat),
    {
        if k == 0 {
            proof {
                vstd::arithmetic::power::lemma1_pow(3);
                vstd::arithmetic::power::lemma_pow0(CHUD_C as int);
                assert(fact(0) == 1);
                assert(term_numerator(0) == 1 * fact(0) * (CHUD_A + CHUD_B * 0));
                assert(fact(0) * (CHUD_A as int) == CHUD_A as int);
                assert(term_numerator(k as nat) == CHUD_A as int);
            }
            return (bigint::from_u64(CHUD_A), bigint::from_u64(1));
        }
        self.update_factorials(k);
        let weight: u64 = CHUD_A + CHUD_B * k;
        let m = bigint::mul(&self.six_k_factorial, &bigint::from_u64(weight));
        let num = if k % 2 == 1 {
            bigint::neg(&m)
        } else {
            m
        };
        proof {
            vstd::arithmetic::mul::lemma_mul_is_associative(
                -1,
                fact((6 * k) as nat),
                (CHUD_A + CHUD_B * k) as int,
            );
        }
        let kf_cubed = bigint::pow_u32(&self.k_factorial, 3);
        let c_pow = bigint::pow_u32(&bigint::from_u64(CHUD_C), 3 * (k as u32));
        let den = bigint::mul(&bigint::mul(&self.three_k_factorial, &kf_cubed), &c_pow);
        (num, den)
    }
}

/// Every factorial is at least one.
pub proof fn lemma_fact_positive(n: nat)
    ensures
        fact(n) >= 1,
    decreases n,
{
    if n > 0 {
        lemma_fact_positive((n - 1) as nat);
        vstd::arithmetic::mul::lemma_mul_increases(n as int, fact((n - 1) as nat));
    }
}

/// The term denominator is positive.
pub proof fn lemma_term_denominator_positive(k: nat)
    ensures
        term_denominator(k) >= 1,
{
    lemma_fact_positive(3 * k);
    lemma_fact_positive(k);
    vstd::arithmetic::power::lemma_pow_positive(fact(k), 3);
    vstd::arithmetic::power::lemma_pow_positive(CHUD_C as int, 3 * k);
    vstd::arithmetic::mul::lemma_mul_strictly_positive(fact(3 * k), pow(fact(k), 3));
    vstd::arithmetic::mul::lemma_mul_strictly_positive(
        fact(3 * k) * pow(fact(k), 3),
        pow(CHUD_C as int, 3 * k),
    );
}

/// Term `k` of the series in decimal fixed point: the exact rational term
/// scaled by `10^f`, its magnitude truncated.
pub open spec fn chud_term_fixed_of(k: nat, f: nat) -> int {
    pow_neg1(k) * ((fact(6 * k) * (CHUD_A + CHUD_B * k) * pow10(f)) / term_denominator(k))
}

/// The fixed-point partial sum of the series over `[a, b)`.
pub open spec fn chud_sum_fixed(a: nat, b: nat, f: nat) -> int
    decreases b - a,
{
    if a >= b {
        0
    } else {
        chud_term_fixed_of(a, f) + chud_sum_fixed((a + 1) as nat, b, f)
    }
}

/// Extending a fixed-point sum by its next term.
pub proof fn lemma_chud_sum_extend(a: nat, b: nat, f: nat)
    requires
        a <= b,
    ensures
        chud_sum_fixed(a, (b + 1) as nat, f) == chud_sum_fixed(a, b, f) + chud_term_fixed_of(b, f),
    decreases b - a,
{
    if a < b {
        lemma_chud_sum_extend((a + 1) as nat, b, f);
    } else {
        assert(chud_sum_fixed((b + 1) as nat, (b + 1) as nat, f) == 0);
        assert(chud_sum_fixed(b, b, f) == 0);
    }
}

/// Splitting a fixed-point sum at any midpoint: addition is exact, so the
/// direct summation is independent of how the term range is chunked and in
/// which order the chunk sums are merged.
pub proof fn lemma_chud_sum_split(a: nat, m: nat, b: nat, f: nat)
    requires
        a <= m <= b,
    ensures
        chud_sum_fixed(a, b, f) == chud_sum_fixed(a, m, f) + chud_sum_fixed(m, b, f),
    decreases m - a,
{
    if a < m {
        lemma_chud_sum_split((a + 1) as nat, m, b, f);
    } else {
        assert(chud_sum_fixed(a, a, f) == 0);
    }
}

/// Term `k` scaled by `10^f`, computed from the exact closed-form pair with
/// the sign tracked separately, so every division has a nonnegative
/// dividend.
pub fn chud_term_fixed(c: &mut ChudnovskyCalculator, k: u64, f: u64) -> (r: BigInt)
    requires
        old(c).wf(),
        (k == 0 && old(c).k == 0) || k == old(c).k + 1,
        k <= MAX_SPLIT_TERMS,
        f <= u32::MAX,
    ensures
        final(c).wf(),
        final(c).k == k,
        int_of(r) == chud_term_fixed_of(k as nat, f as nat),
{
    let (num, den) = c.compute_term(k);
    let mag = if k % 2 == 1 {
        bigint::neg(&num)
    } else {
        num
    };
    proof {
        vstd::arithmetic::mul::lemma_mul_is_associative(
            -1,
            fact((6 * k) as nat),
            (CHUD_A + CHUD_B * k) as int,
        );
        assert(int_of(mag) == fact((6 * k) as nat) * ((CHUD_A + CHUD_B * k) as int));
        lemma_fact_positive((6 * k) as nat);
        vstd::arithmetic::mul::lemma_mul_nonnegative(
            fact((6 * k) as nat),
            (CHUD_A + CHUD_B * k) as int,
        );
        vstd::arithmetic::power::lemma_pow_positive(10, f as nat);
        vstd::arithmetic::mul::lemma_mul_nonnegative(int_of(mag), pow10(f as nat));
        lemma_term_denominator_positive(k as nat);
    }
    let pf = bigint::pow_u32(&bigint::from_u64(10), f as u32);
    let scaled = bigint::mul(&mag, &pf);
    let (q, _rem) = bigint::div_rem(&scaled, &den);
    if k % 2 == 1 {
        bigint::neg(&q)
    } else {
        q
    }
}

/// The fixed-point sum of terms `[a, b)`, the scratch state rebuilt at the
/// start of the range.  Exact integer addition makes the result independent
/// of how a caller chunks the range (see `lemma_chud_sum_split`).
pub fn chud_range_sum(a: u64, b: u64, f: u64) -> (r: BigInt)
    requires
        a <= b,
        b <= MAX_SPLIT_TERMS,
        f <= u32::MAX,
    ensures
        int_of(r) == chud_sum_fixed(a as nat, b as nat, f as nat),
{
    let mut acc = bigint::from_u64(0);
    if a >= b {
        return acc;
    }
    let mut calc = if a == 0 {
        ChudnovskyCalculator::new()
    } else {
        ChudnovskyCalculator::at_index(a - 1)
    };
    let mut k = a;
    while k < b
        invariant
            a <= k <= b,
            b <= MAX_SPLIT_TERMS,
            f <= u32::MAX,
            calc.wf(),
            calc.k == (if k == 0 {
                0int
            } else {
                k - 1
            }),
            int_of(acc) == chud_sum_fixed(a as nat, k as nat, f as nat),
        decreases b - k,
    {
        proof {
            lemma_chud_sum_extend(a as nat, k as nat, f as nat);
        }
        let t = chud_term_fixed(&mut calc, k, f);
        acc = bigint::add(&acc, &t);
        k = k + 1;
    }
    acc
}

/// Validity of the incremental recurrence: for `k >= 1` the closed-form
/// terms of consecutive indexes relate exactly by the ratio factors that the
/// binary splitter uses, `term_k = term_(k-1) * (term_t(k) / term_q(k)) *
/// ((A + B k) / (A + B (k-1)))`, stated over cross-multiplied integers.  A
/// sequential evaluator may therefore advance by that recurrence instead of
/// recomputing factorials, and the splitter's ratio factors agree with the
/// factorial closed form.
pub proof fn lemma_term_recurrence(k: nat)
    requires
        1 <= k,
    ensures
        term_numerator(k) * term_denominator((k - 1) as nat) * crate::splitter::term_q(k) * (
        CHUD_A + CHUD_B * (k - 1)) == term_numerator((k - 1) as nat) * term_denominator(k)
            * crate::splitter::term_t(k) * (CHUD_A + CHUD_B * k),
{
    let km = (k - 1) as nat;
    let kk = k as int;
    let s = pow_neg1(k);
    let sp = pow_neg1(km);
    let f6m = fact(6 * km);
    let f3m = fact(3 * km);
    let f1m = fact(km);
    let f6 = fact(6 * k);
    let f3 = fact(3 * k);
    let f1 = fact(k);
    let p1m = pow(f1m, 3);
    let p1 = pow(f1, 3);
    let c3km = pow(CHUD_C as int, 3 * km);
    let c3k = pow(CHUD_C as int, 3 * k);
    let cc = pow(CHUD_C as int, 3);
    let w = (CHUD_A + CHUD_B * k) as int;
    let wp = (CHUD_A + CHUD_B * km) as int;
    let a1 = 6 * kk - 5;
    let a2 = 6 * kk - 4;
    let a3 = 6 * kk - 3;
    let a4 = 6 * kk - 2;
    let a5 = 6 * kk - 1;
    let a6 = 6 * kk;
    let b1 = 3 * kk - 2;
    let b2 = 3 * kk - 1;
    let b3 = 3 * kk;
    let u2 = 2 * kk - 1;
    let k3 = (kk * kk) * kk;
    let aa = ((((a1 * a2) * a3) * a4) * a5) * a6;
    let bb = (b1 * b2) * b3;
    let uu = (a1 * u2) * a5;
    // sign alternation
    assert(sp == -s);
    // factorial extensions: each fact at k is the one at k-1 times the new
    // factors, then reassociated into one product
    lemma_fact_extend((6 * km) as nat);
    lemma_fact_extend((6 * km + 1) as nat);
    lemma_fact_extend((6 * km + 2) as nat);
    lemma_fact_extend((6 * km + 3) as nat);
    lemma_fact_extend((6 * km + 4) as nat);
    lemma_fact_extend((6 * km + 5) as nat);
    assert(f6 == (((((f6m * a1) * a2) * a3) * a4) * a5) * a6);
    assert(f6 == f6m * aa) by (nonlinear_arith)
        requires
            f6 == (((((f6m * a1) * a2) * a3) * a4) * a5) * a6,
            aa == ((((a1 * a2) * a3) * a4) * a5) * a6,
    ;
    lemma_fact_extend((3 * km) as nat);
    lemma_fact_extend((3 * km + 1) as nat);
    lemma_fact_extend((3 * km + 2) as nat);
    assert(f3 == ((f3m * b1) * b2) * b3);
    assert(f3 == f3m * bb) by (nonlinear_arith)
        requires
            f3 == ((f3m * b1) * b2) * b3,
            bb == (b1 * b2) * b3,
    ;
    // cubes: (k!)^3 == ((k-1)!)^3 * k^3
    lemma_fact_extend(km);
    assert(f1 == f1m * kk);
    vstd::arithmetic::power::lemma_pow_distributes(f1m, kk, 3);
    vstd::arithmetic::power::lemma_pow1(kk);
    vstd::arithmetic::power::lemma_pow_adds(kk, 1, 1);
    vstd::arithmetic::power::lemma_pow_adds(kk, 2, 1);
    assert(pow(kk, 3) == k3);
    assert(p1 == p1m * k3);
    // powers of C: C^(3k) == C^(3(k-1)) * C^3, and C^3 == 24 * (C^3 / 24)
    vstd::arithmetic::power::lemma_pow_adds(CHUD_C as int, 3 * km, 3);
    assert(c3k == c3km * cc);
    vstd::arithmetic::power::lemma_pow1(CHUD_C as int);
    vstd::arithmetic::power::lemma_pow_adds(CHUD_C as int, 1, 1);
    vstd::arithmetic::power::lemma_pow_adds(CHUD_C as int, 2, 1);
    assert(cc == ((CHUD_C as int) * (CHUD_C as int)) * (CHUD_C as int));
    assert(cc == 24 * (CHUD_C3_OVER_24 as int));
    // the six new numerator factors are 24 times the three new denominator
    // factors times the ratio numerator magnitude
    assert(a2 == 2 * b1);
    assert(a3 == 3 * u2);
    assert(a4 == 2 * b2);
    assert(a6 == 2 * b3);
    assert(aa == 24 * (bb * uu)) by (nonlinear_arith)
        requires
            aa == ((((a1 * a2) * a3) * a4) * a5) * a6,
            bb == (b1 * b2) * b3,
            uu == (a1 * u2) * a5,
            a2 == 2 * b1,
            a3 == 3 * u2,
            a4 == 2 * b2,
            a6 == 2 * b3,
    ;
    // unfold the ratio factors of the splitter
    assert(crate::splitter::term_q(k) == k3 * (CHUD_C3_OVER_24 as int));
    assert(crate::splitter::term_t(k) == -uu) by (nonlinear_arith)
        requires
            crate::splitter::term_t(k) == -((a1 * u2) * a5),
            uu == (a1 * u2) * a5,
    ;
    // assemble both sides: substitute the extensions, then rearrange both
    // sides into one common product, a few factors at a time
    let c24 = CHUD_C3_OVER_24 as int;
    let g = bb * uu;
    let n0 = s * f6m;
    let h = n0 * w;
    let z = n0 * wp;
    let m2_v = (f3m * p1m) * c3km;
    let x = g * m2_v;
    let y = k3 * c24;
    let tp = (m2_v * (bb * k3)) * c24;
    assert(f6 == f6m * (24 * g));
    assert(c3k == c3km * (24 * c24));
    assert(f3 * p1 == (f3m * bb) * (p1m * k3));
    // left side
    assert((s * (f6m * (24 * g))) * w == 24 * (h * g)) by (nonlinear_arith)
        requires
            h == (s * f6m) * w,
    ;
    assert((((24 * (h * g)) * m2_v) * (k3 * c24)) * wp == 24 * ((h * x) * (y * wp)))
        by (nonlinear_arith)
        requires
            x == g * m2_v,
            y == k3 * c24,
    ;
    assert((h * x) * (y * wp) == (z * x) * (y * w)) by (nonlinear_arith)
        requires
            h == n0 * w,
            z == n0 * wp,
    ;
    assert(x == (bb * uu) * m2_v);
    assert((z * x) * (y * w) == (z * (bb * m2_v)) * (y * (uu * w))) by (nonlinear_arith)
        requires
            x == (bb * uu) * m2_v,
    ;
    assert((z * (bb * m2_v)) * (y * (uu * w)) == (z * tp) * (uu * w)) by (nonlinear_arith)
        requires
            y == k3 * c24,
            tp == (m2_v * (bb * k3)) * c24,
    ;
    assert(((s * f6) * w) * ((f3m * p1m) * c3km) * (k3 * c24) * wp == 24 * ((z * tp) * (uu * w)));
    // right side
    assert((sp * f6m) * wp == -(z)) by (nonlinear_arith)
        requires
            sp == -s,
            z == (s * f6m) * wp,
    ;
    assert(((f3m * bb) * (p1m * k3)) * (c3km * (24 * c24)) == 24 * tp) by (nonlinear_arith)
        requires
            m2_v == (f3m * p1m) * c3km,
            tp == (m2_v * (bb * k3)) * c24,
    ;
    assert(((-(z)) * (24 * tp)) * (-uu) * w == 24 * ((z * tp) * (uu * w))) by (nonlinear_arith);
    assert(((sp * f6m) * wp) * ((f3 * p1) * c3k) * (-uu) * w == 24 * ((z * tp) * (uu * w)));
    assert(((s * f6) * w) * ((f3m * p1m) * c3km) * (k3 * c24) * wp == ((sp * f6m) * wp) * ((f3
        * p1) * c3k) * (-uu) * w);
}

} // verus!
