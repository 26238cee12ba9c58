use vstd::prelude::*;
use num_bigint::BigInt;
use crate::bbp::pow2;
use crate::bigint;
use crate::bigint::int_of;
use crate::decimal::pow10;
use crate::errors::PiError;
use crate::planner::MAX_DIGITS;

verus! {

/// Decimal guard digits carried beyond the caller's request.  They absorb the
/// error of the scaled integer square root (below one unit of the last
/// fractional place) and the truncation of the final division, so that the
/// digits the renderer keeps are exact.
pub const GUARD_DECIMAL_DIGITS: u64 = 15;

/// `s` is the floor of the square root of `n`.
pub open spec fn is_sqrt_floor(n: int, s: int) -> bool {
    0 <= s && s * s <= n && n < (s + 1) * (s + 1)
}

/// The floor of the square root of a nonnegative integer.
pub open spec fn sqrt_floor(n: int) -> int {
    choose|s: int| is_sqrt_floor(n, s)
}

/// The floor square root is unique, so any witness pins `sqrt_floor`.
pub proof fn lemma_sqrt_floor_unique(n: int, s: int)
    requires
        is_sqrt_floor(n, s),
    ensures
        sqrt_floor(n) == s,
{
    let s2 = sqrt_floor(n);
    assert(is_sqrt_floor(n, s2));
    if s < s2 {
        assert((s + 1) * (s + 1) <= s2 * s2) by (nonlinear_arith)
            requires
                0 <= s + 1 <= s2,
        ;
    }
    if s2 < s {
        assert((s2 + 1) * (s2 + 1) <= s * s) by (nonlinear_arith)
            requires
                0 <= s2 + 1 <= s,
        ;
    }
}

/// The fractional scale of an approximation for a digit request.
pub open spec fn frac_of(digits: nat) -> nat {
    (digits + GUARD_DECIMAL_DIGITS) as nat
}

/// The scaled value the assembler computes from an exact pair `(p, q)`:
/// `floor(426880 * sqrt(10005) * (q / p) * 10^f)` with `f = frac_of(digits)`
/// fractional decimal digits, the square root taken as an integer scaled by
/// `10^f`, which supplies the whole scale of the result.
pub open spec fn assembled_scaled(p: int, q: int, digits: nat) -> int
    recommends
        p > 0,
{
    426880 * sqrt_floor(10005 * pow10(2 * frac_of(digits))) * q / p
}

/// `v`, scaled by `10^f`, lies in `[3, 4)`: its integer part is the single
/// digit 3.
pub open spec fn in_pi_band(v: int, f: nat) -> bool {
    3 * pow10(f) <= v < 4 * pow10(f)
}

/// The final high-precision value: `pi` approximated by
/// `scaled / 10^frac_digits`, immutable once produced.  It carries
/// `GUARD_DECIMAL_DIGITS` fractional digits beyond the caller's request; the
/// renderer discards them.
#[derive(Debug)]
pub struct PiApproximation {
    pub scaled: BigInt,
    pub frac_digits: u64,
    pub digits: u64,
}

impl PiApproximation {
    /// Well-formedness: the scale matches the digit request and the value
    /// has integer part 3.
    pub open spec fn wf(self) -> bool {
        &&& 1 <= self.digits <= MAX_DIGITS
        &&& self.frac_digits == self.digits + GUARD_DECIMAL_DIGITS
        &&& in_pi_band(int_of(self.scaled), self.frac_digits as nat)
    }
}

/// Convert an exact merged pair `(p, q)` into the fixed-point approximation
/// `floor(426880 * sqrt(10005) * q / p * 10^f)`, computed with a scaled
/// integer square root and a single truncated division.  Success is owed
/// exactly when `p` and `q` are positive and the resulting value has integer
/// part 3; any other outcome is an internal invariant violation, reported as
/// `InvalidRange` without yielding a partial result.
pub fn assemble(p: &BigInt, q: &BigInt, digits: u64) -> (r: Result<PiApproximation, PiError>)
    requires
        1 <= digits <= MAX_DIGITS,
    ensures
        r.is_ok() <==> (int_of(*p) > 0 && int_of(*q) > 0 && in_pi_band(
            assembled_scaled(int_of(*p), int_of(*q), digits as nat),
            frac_of(digits as nat),
        )),
        r matches Ok(a) ==> {
            &&& a.wf()
            &&& a.digits == digits
            &&& a.frac_digits == digits + GUARD_DECIMAL_DIGITS
            &&& int_of(a.scaled) == assembled_scaled(int_of(*p), int_of(*q), digits as nat)
        },
        r matches Err(e) ==> e == PiError::InvalidRange,
{
    if !bigint::is_positive(p) {
        return Err(PiError::InvalidRange);
    }
    if !bigint::is_positive(q) {
        return Err(PiError::InvalidRange);
    }
    let f: u64 = digits + GUARD_DECIMAL_DIGITS;
    let pow_f = bigint::pow_u32(&bigint::from_u64(10), f as u32);
    proof {
        vstd::arithmetic::power::lemma_pow_positive(10, f as nat);
        vstd::arithmetic::power::lemma_pow_adds(10, f as nat, f as nat);
    }
    let sq_arg = bigint::mul(&bigint::from_u64(10005), &bigint::mul(&pow_f, &pow_f));
    proof {
        vstd::arithmetic::mul::lemma_mul_strictly_positive(pow10(f as nat), pow10(f as nat));
        vstd::arithmetic::mul::lemma_mul_strictly_positive(10005, pow10(f as nat) * pow10(f as nat));
    }
    let s = bigint::sqrt(&sq_arg);
    proof {
        lemma_sqrt_floor_unique(int_of(sq_arg), int_of(s));
    }
    let num = bigint::mul(&bigint::mul(&bigint::from_u64(426880), &s), q);
    proof {
        vstd::arithmetic::mul::lemma_mul_nonnegative(426880, int_of(s));
        vstd::arithmetic::mul::lemma_mul_nonnegative(426880 * int_of(s), int_of(*q));
    }
    let (val, _rem) = bigint::div_rem(&num, p);
    let lower = bigint::mul(&bigint::from_u64(3), &pow_f);
    let upper = bigint::mul(&bigint::from_u64(4), &pow_f);
    if bigint::lt(&val, &lower) {
        return Err(PiError::InvalidRange);
    }
    if !bigint::lt(&val, &upper) {
        return Err(PiError::InvalidRange);
    }
    Ok(PiApproximation { scaled: val, frac_digits: f, digits })
}

/// The scaled value assembled from a decimal fixed-point direct sum `s` of
/// the series: `floor(426880 * sqrt(10005) * 10^f / (s / 10^f))`, the square
/// root taken as an integer scaled by `10^f`.
pub open spec fn direct_scaled(s: int, digits: nat) -> int
    recommends
        s > 0,
{
    426880 * sqrt_floor(10005 * pow10(2 * frac_of(digits))) * pow10(frac_of(digits)) / s
}

/// The scaled value assembled from a binary fixed-point sum `s` that already
/// approximates pi at scale `2^prec`: converted to the decimal scale by
/// `floor(s * 10^f / 2^prec)`.
pub open spec fn binary_to_decimal(s: int, digits: nat, prec: nat) -> int
    recommends
        s >= 0,
{
    s * pow10(frac_of(digits)) / pow2(prec)
}

/// Convert a decimal fixed-point direct sum of the series into the final
/// approximation `pi = 426880 * sqrt(10005) / sum`, with a scaled integer
/// square root and one truncated division.  Success is owed exactly when the
/// sum is positive and the value has integer part 3; anything else is an
/// internal invariant violation, reported as `InvalidRange`.
pub fn assemble_direct(sum: &BigInt, digits: u64) -> (r: Result<PiApproximation, PiError>)
    requires
        1 <= digits <= MAX_DIGITS,
    ensures
        r.is_ok() <==> (int_of(*sum) > 0 && in_pi_band(
            direct_scaled(int_of(*sum), digits as nat),
            frac_of(digits as nat),
        )),
        r matches Ok(a) ==> {
            &&& a.wf()
            &&& a.digits == digits
            &&& int_of(a.scaled) == direct_scaled(int_of(*sum), digits as nat)
        },
        r matches Err(e) ==> e == PiError::InvalidRange,
{
    if !bigint::is_positive(sum) {
        return Err(PiError::InvalidRange);
    }
    let f: u64 = digits + GUARD_DECIMAL_DIGITS;
    let pow_f = bigint::pow_u32(&bigint::from_u64(10), f as u32);
    proof {
        vstd::arithmetic::power::lemma_pow_positive(10, f as nat);
        vstd::arithmetic::power::lemma_pow_adds(10, f as nat, f as nat);
    }
    let sq_arg = bigint::mul(&bigint::from_u64(10005), &bigint::mul(&pow_f, &pow_f));
    proof {
        vstd::arithmetic::mul::lemma_mul_strictly_positive(pow10(f as nat), pow10(f as nat));
        vstd::arithmetic::mul::lemma_mul_strictly_positive(10005, pow10(f as nat) * pow10(f as nat));
    }
    let s = bigint::sqrt(&sq_arg);
    proof {
        lemma_sqrt_floor_unique(int_of(sq_arg), int_of(s));
    }
    let num = bigint::mul(&bigint::mul(&bigint::from_u64(426880), &s), &pow_f);
    proof {
        vstd::arithmetic::mul::lemma_mul_nonnegative(426880, int_of(s));
        vstd::arithmetic::mul::lemma_mul_nonnegative(426880 * int_of(s), pow10(f as nat));
    }
    let (val, _rem) = bigint::div_rem(&num, sum);
    let lower = bigint::mul(&bigint::from_u64(3), &pow_f);
    let upper = bigint::mul(&bigint::from_u64(4), &pow_f);
    if bigint::lt(&val, &lower) {
        return Err(PiError::InvalidRange);
    }
    if !bigint::lt(&val, &upper) {
        return Err(PiError::InvalidRange);
    }
    Ok(PiApproximation { scaled: val, frac_digits: f, digits })
}

/// Convert a binary fixed-point sum that approximates pi directly (the BBP
/// accumulation at working precision) into the decimal fixed-point
/// approximation.  Success is owed exactly when the sum is positive and the
/// converted value has integer part 3.
pub fn assemble_bbp_sum(sum: &BigInt, digits: u64, prec: u64) -> (r: Result<
    PiApproximation,
    PiError,
>)
    requires
        1 <= digits <= MAX_DIGITS,
        prec <= crate::planner::MAX_PRECISION_BITS,
    ensures
        r.is_ok() <==> (int_of(*sum) > 0 && in_pi_band(
            binary_to_decimal(int_of(*sum), digits as nat, prec as nat),
            frac_of(digits as nat),
        )),
        r matches Ok(a) ==> {
            &&& a.wf()
            &&& a.digits == digits
            &&& int_of(a.scaled) == binary_to_decimal(int_of(*sum), digits as nat, prec as nat)
        },
        r matches Err(e) ==> e == PiError::InvalidRange,
{
    if !bigint::is_positive(sum) {
        return Err(PiError::InvalidRange);
    }
    let f: u64 = digits + GUARD_DECIMAL_DIGITS;
    let pow_f = bigint::pow_u32(&bigint::from_u64(10), f as u32);
    let p2 = bigint::pow_u32(&bigint::from_u64(2), prec as u32);
    proof {
        vstd::arithmetic::power::lemma_pow_positive(10, f as nat);
        vstd::arithmetic::power::lemma_pow_positive(2, prec as nat);
        vstd::arithmetic::mul::lemma_mul_nonnegative(int_of(*sum), pow10(f as nat));
    }
    let num = bigint::mul(sum, &pow_f);
    let (val, _rem) = bigint::div_rem(&num, &p2);
    let lower = bigint::mul(&bigint::from_u64(3), &pow_f);
    let upper = bigint::mul(&bigint::from_u64(4), &pow_f);
    if bigint::lt(&val, &lower) {
        return Err(PiError::InvalidRange);
    }
    if !bigint::lt(&val, &upper) {
        return Err(PiError::InvalidRange);
    }
    Ok(PiApproximation { scaled: val, frac_digits: f, digits })
}

} // verus!
