use vstd::prelude::*;
use crate::errors::{Algorithm, PiError};
use crate::splitter::MAX_SPLIT_TERMS;

verus! {

/// Largest digit count the engine accepts; bounds memory and time.
pub const MAX_DIGITS: u64 = 1000000;

/// `log2(10)` scaled by `10^5` and rounded up, so that the derived precision
/// never falls short of `digits * log2(10)`.
pub const LOG2_10_SCALED: u64 = 332193;

pub const LOG2_10_SCALE: u64 = 100000;

/// Guard bits added beyond `ceil(digits * log2(10))`: a fixed margin covering
/// the worst-case accumulated rounding of the per-term evaluations, which
/// lose at most a few units in the last place each.
pub const GUARD_BITS: u64 = 32;

/// Decimal digits contributed by one Chudnovsky term, scaled by `10^4`:
/// `log10(640320^3 / 24) / 3 = 14.1816...`, truncated so the term estimate
/// errs on the high side.
pub const CHUD_DIGITS_PER_TERM_SCALED: u64 = 141816;

pub const CHUD_DIGITS_PER_TERM_SCALE: u64 = 10000;

/// Extra Chudnovsky terms beyond the computed minimum; two terms add more
/// than 28 decimal digits of margin, which dominates the guard digits the
/// renderer discards.
pub const CHUD_GUARD_TERMS: u64 = 2;

/// Extra BBP terms beyond the computed minimum: ten terms add 40 binary
/// digits of margin, matching the precision guard.
pub const BBP_GUARD_TERMS: u64 = 10;

/// Digit count above which the hybrid selection switches from direct
/// summation to binary splitting.
pub const HYBRID_SPLIT_THRESHOLD: u64 = 10000;

/// Upper bound on the working precision the planner can derive; it keeps
/// precision exponents inside `u32`.
pub const MAX_PRECISION_BITS: u64 = 4000000;

/// Upper bound on BBP term indexes; it lies above the term count that the
/// planner can request for the largest allowed digit count.
pub const MAX_BBP_TERMS: u64 = 900000;

/// Working binary precision for a digit count:
/// `ceil(digits * log2(10)) + GUARD_BITS`.
pub open spec fn precision_bits_of(digits: nat) -> int {
    (digits * LOG2_10_SCALED + (LOG2_10_SCALE - 1)) / (LOG2_10_SCALE as int) + GUARD_BITS
}

/// The concrete strategy that a selection resolves to: `HybridAuto` becomes
/// binary splitting above the digit threshold and direct summation below it.
pub open spec fn effective_of(alg: Algorithm, digits: nat) -> Algorithm {
    if alg is HybridAuto {
        if digits > HYBRID_SPLIT_THRESHOLD {
            Algorithm::ChudnovskyBinarySplit
        } else {
            Algorithm::ChudnovskyDirect
        }
    } else {
        alg
    }
}

/// Series terms needed for the requested digits: one BBP term contributes
/// about 4 binary digits; one Chudnovsky term contributes
/// `CHUD_DIGITS_PER_TERM` decimal digits.
pub open spec fn terms_needed_of(alg: Algorithm, digits: nat) -> int {
    match effective_of(alg, digits) {
        Algorithm::BbpDirect => precision_bits_of(digits) / 4 + BBP_GUARD_TERMS,
        Algorithm::ChudnovskyDirect | Algorithm::ChudnovskyBinarySplit => (digits
            * CHUD_DIGITS_PER_TERM_SCALE + (CHUD_DIGITS_PER_TERM_SCALED - 1)) / (
        CHUD_DIGITS_PER_TERM_SCALED as int) + CHUD_GUARD_TERMS,
        Algorithm::HybridAuto => 0,
    }
}

/// The working binary precision derived from a digit count.
pub fn precision_bits(digits: u64) -> (r: u64)
    requires
        1 <= digits <= MAX_DIGITS,
    ensures
        r == precision_bits_of(digits as nat),
        r <= MAX_PRECISION_BITS,
{
    proof {
        vstd::arithmetic::mul::lemma_mul_inequality(digits as int, MAX_DIGITS as int, LOG2_10_SCALED as int);
        vstd::arithmetic::div_mod::lemma_div_is_ordered(
            digits * LOG2_10_SCALED + (LOG2_10_SCALE - 1),
            332193099999,
            LOG2_10_SCALE as int,
        );
    }
    (digits * LOG2_10_SCALED + (LOG2_10_SCALE - 1)) / LOG2_10_SCALE + GUARD_BITS
}

/// Resolve a strategy selection to a concrete strategy.
pub fn effective_algorithm(alg: Algorithm, digits: u64) -> (r: Algorithm)
    ensures
        r == effective_of(alg, digits as nat),
        !(r is HybridAuto),
{
    match alg {
        Algorithm::HybridAuto => {
            if digits > HYBRID_SPLIT_THRESHOLD {
                Algorithm::ChudnovskyBinarySplit
            } else {
                Algorithm::ChudnovskyDirect
            }
        },
        _ => alg,
    }
}

/// The number of series terms to evaluate for the requested digits.
pub fn terms_needed(alg: Algorithm, digits: u64) -> (r: u64)
    requires
        1 <= digits <= MAX_DIGITS,
    ensures
        r == terms_needed_of(alg, digits as nat),
        r >= 1,
        !(effective_of(alg, digits as nat) is BbpDirect) ==> r <= MAX_SPLIT_TERMS,
        effective_of(alg, digits as nat) is BbpDirect ==> r <= MAX_BBP_TERMS,
{
    let eff = effective_algorithm(alg, digits);
    match eff {
        Algorithm::BbpDirect => {
            let p = precision_bits(digits);
            proof {
                vstd::arithmetic::div_mod::lemma_div_is_ordered(
                    p as int,
                    MAX_PRECISION_BITS as int,
                    4,
                );
            }
            p / 4 + BBP_GUARD_TERMS
        },
        _ => {
            (digits * CHUD_DIGITS_PER_TERM_SCALE + (CHUD_DIGITS_PER_TERM_SCALED - 1))
                / CHUD_DIGITS_PER_TERM_SCALED + CHUD_GUARD_TERMS
        },
    }
}

/// `terms_needed` is non-decreasing in the digit count, for every strategy
/// selection.
pub proof fn lemma_terms_needed_monotonic(alg: Algorithm, d1: nat, d2: nat)
    requires
        d1 <= d2,
    ensures
        terms_needed_of(alg, d1) <= terms_needed_of(alg, d2),
{
    vstd::arithmetic::mul::lemma_mul_inequality(d1 as int, d2 as int, LOG2_10_SCALED as int);
    vstd::arithmetic::div_mod::lemma_div_is_ordered(
        d1 * LOG2_10_SCALED + (LOG2_10_SCALE - 1),
        d2 * LOG2_10_SCALED + (LOG2_10_SCALE - 1),
        LOG2_10_SCALE as int,
    );
    vstd::arithmetic::div_mod::lemma_div_is_ordered(
        precision_bits_of(d1),
        precision_bits_of(d2),
        4,
    );
    vstd::arithmetic::mul::lemma_mul_inequality(
        d1 as int,
        d2 as int,
        CHUD_DIGITS_PER_TERM_SCALE as int,
    );
    vstd::arithmetic::div_mod::lemma_div_is_ordered(
        d1 * CHUD_DIGITS_PER_TERM_SCALE + (CHUD_DIGITS_PER_TERM_SCALED - 1),
        d2 * CHUD_DIGITS_PER_TERM_SCALE + (CHUD_DIGITS_PER_TERM_SCALED - 1),
        CHUD_DIGITS_PER_TERM_SCALED as int,
    );
}

/// A computation plan: the validated inputs together with the derived
/// precision and term budget.  `algorithm` is always a concrete strategy.
#[derive(Clone, Copy, Debug, PartialEq, Eq, Structural)]
pub struct ComputePlan {
    pub digits: u64,
    pub threads: u64,
    pub algorithm: Algorithm,
    pub precision_bits: u64,
    pub terms: u64,
}

/// The inputs a plan accepts: a positive digit count within the configured
/// maximum and a positive thread count.
pub open spec fn plan_ok(digits: nat, threads: nat) -> bool {
    1 <= digits <= MAX_DIGITS && 1 <= threads
}

/// Validate the request and derive the working precision and term budget.
/// Fails with `InvalidDigitCount` when `digits` is zero or above the
/// configured maximum, and with `InvalidThreadCount` when `threads` is zero;
/// succeeds on every other input.
pub fn plan(digits: u64, threads: u64, algorithm: Algorithm) -> (r: Result<ComputePlan, PiError>)
    ensures
        r.is_ok() <==> plan_ok(digits as nat, threads as nat),
        (digits == 0 || digits > MAX_DIGITS) <==> (r matches Err(e) && e == PiError::InvalidDigitCount),
        (1 <= digits <= MAX_DIGITS && threads == 0) <==> (r matches Err(e) && e
            == PiError::InvalidThreadCount),
        plan_ok(digits as nat, threads as nat) ==> (r matches Ok(p) && p.digits == digits
            && p.threads == threads && p.algorithm == effective_of(algorithm, digits as nat)
            && p.precision_bits == precision_bits_of(digits as nat) && p.terms == terms_needed_of(
            algorithm,
            digits as nat,
        )),
{
    if digits == 0 || digits > MAX_DIGITS {
        return Err(PiError::InvalidDigitCount);
    }
    if threads == 0 {
        return Err(PiError::InvalidThreadCount);
    }
    let algorithm = effective_algorithm(algorithm, digits);
    let precision_bits = precision_bits(digits);
    let terms = terms_needed(algorithm, digits);
    Ok(ComputePlan { digits, threads, algorithm, precision_bits, terms })
}

} // verus!
