use vstd::prelude::*;

pub mod accuracy;
pub mod assembler;
pub mod bbp;
pub mod bigint;
pub mod decimal;
pub mod errors;
pub mod evaluator;
pub mod planner;
pub mod reducer;
pub mod render;
pub mod spigot;
pub mod splitter;

use crate::assembler::{
    assemble, assemble_bbp_sum, assemble_direct, assembled_scaled, binary_to_decimal,
    direct_scaled, frac_of, in_pi_band, PiApproximation, GUARD_DECIMAL_DIGITS,
};
use crate::bbp::{bbp_range_sum, bbp_sum_scaled};
use crate::bigint::int_of;
use crate::errors::{Algorithm, PiError};
use crate::evaluator::{chud_range_sum, chud_sum_fixed};
use crate::planner::{
    effective_of, plan, plan_ok, precision_bits_of, terms_needed_of, LOG2_10_SCALE,
    LOG2_10_SCALED, MAX_DIGITS, MAX_PRECISION_BITS,
};
use crate::reducer::chudnovsky_triple;
use crate::splitter::{prod_q, sum_p};

verus! {

/// The number of Chudnovsky terms the engine evaluates for a digit count.
pub open spec fn chud_terms_of(digits: nat) -> nat {
    terms_needed_of(Algorithm::ChudnovskyBinarySplit, digits) as nat
}

/// The exact scaled value the engine computes for a digit count: a function
/// of the digit count alone.
pub open spec fn pi_scaled_of(digits: nat) -> int {
    assembled_scaled(
        sum_p(0, chud_terms_of(digits)),
        prod_q(0, chud_terms_of(digits)),
        digits,
    )
}

/// The internal soundness condition of the assembly step: the merged
/// numerator and denominator are positive and the assembled value has
/// integer part 3.  Its failure would be an internal defect, never caused
/// by a caller.
pub open spec fn pi_computable(digits: nat) -> bool {
    &&& sum_p(0, chud_terms_of(digits)) > 0
    &&& prod_q(0, chud_terms_of(digits)) > 0
    &&& in_pi_band(pi_scaled_of(digits), frac_of(digits))
}

/// Compute pi to `digits` decimal digits with exact Chudnovsky binary
/// splitting, the work statically partitioned over `threads` contiguous
/// ranges and the partial triples folded strictly left to right.
///
/// The contract pins the computed value to `pi_scaled_of(digits)`, a
/// function of the digit count alone: the thread count shapes only the work
/// distribution, never the result.  Validation failures are returned before
/// any work starts; an assembly invariant violation aborts the computation
/// with `InvalidRange` rather than yielding a partial result.
pub fn compute_pi(digits: u64, threads: u64) -> (r: Result<PiApproximation, PiError>)
    ensures
        r.is_ok() <==> (plan_ok(digits as nat, threads as nat) && pi_computable(digits as nat)),
        r matches Ok(a) ==> {
            &&& a.wf()
            &&& a.digits == digits
            &&& int_of(a.scaled) == pi_scaled_of(digits as nat)
        },
        (digits == 0 || digits > MAX_DIGITS) ==> (r matches Err(e) && e
            == PiError::InvalidDigitCount),
        (1 <= digits <= MAX_DIGITS && threads == 0) ==> (r matches Err(e) && e
            == PiError::InvalidThreadCount),
        (plan_ok(digits as nat, threads as nat) && !pi_computable(digits as nat)) ==> (r matches
            Err(e) && e == PiError::InvalidRange),
{
    let p = match plan(digits, threads, Algorithm::ChudnovskyBinarySplit) {
        Ok(p) => p,
        Err(e) => {
            return Err(e);
        },
    };
    proof {
        vstd::arithmetic::div_mod::lemma_div_is_ordered(
            digits * planner::CHUD_DIGITS_PER_TERM_SCALE + (planner::CHUD_DIGITS_PER_TERM_SCALED
                - 1),
            10000141815,
            planner::CHUD_DIGITS_PER_TERM_SCALED as int,
        );
    }
    let triple = chudnovsky_triple(p.terms, p.threads);
    assemble(&triple.p, &triple.q, digits)
}

/// The fixed-point value each concrete strategy computes for a digit count:
/// like `pi_scaled_of`, a function of the strategy and the digit count alone.
pub open spec fn pi_value_of(alg: Algorithm, digits: nat) -> int {
    match effective_of(alg, digits) {
        Algorithm::BbpDirect => binary_to_decimal(
            bbp_sum_scaled(
                0,
                terms_needed_of(alg, digits) as nat,
                precision_bits_of(digits) as nat,
            ),
            digits,
            precision_bits_of(digits) as nat,
        ),
        Algorithm::ChudnovskyDirect => direct_scaled(
            chud_sum_fixed(0, terms_needed_of(alg, digits) as nat, frac_of(digits)),
            digits,
        ),
        Algorithm::ChudnovskyBinarySplit => pi_scaled_of(digits),
        Algorithm::HybridAuto => 0,
    }
}

/// The per-strategy internal soundness condition: the accumulated sum (or
/// merged pair) is positive and the assembled value has integer part 3.
pub open spec fn pi_computable_with(alg: Algorithm, digits: nat) -> bool {
    match effective_of(alg, digits) {
        Algorithm::BbpDirect => bbp_sum_scaled(
            0,
            terms_needed_of(alg, digits) as nat,
            precision_bits_of(digits) as nat,
        ) > 0 && in_pi_band(pi_value_of(alg, digits), frac_of(digits)),
        Algorithm::ChudnovskyDirect => chud_sum_fixed(
            0,
            terms_needed_of(alg, digits) as nat,
            frac_of(digits),
        ) > 0 && in_pi_band(pi_value_of(alg, digits), frac_of(digits)),
        Algorithm::ChudnovskyBinarySplit => pi_computable(digits),
        Algorithm::HybridAuto => false,
    }
}

/// Compute pi to `digits` decimal digits with the selected strategy:
/// work-stealing direct summation (BBP at binary working precision, or exact
/// Chudnovsky terms in decimal fixed point), or Chudnovsky binary splitting;
/// `HybridAuto` resolves from the digit count.  As with `compute_pi`, the
/// contract pins the computed value to a function of the strategy and digit
/// count alone: the thread count shapes only the work distribution.
pub fn compute_pi_with(algorithm: Algorithm, digits: u64, threads: u64) -> (r: Result<
    PiApproximation,
    PiError,
>)
    ensures
        r.is_ok() <==> (plan_ok(digits as nat, threads as nat) && pi_computable_with(
            algorithm,
            digits as nat,
        )),
        r matches Ok(a) ==> {
            &&& a.wf()
            &&& a.digits == digits
            &&& int_of(a.scaled) == pi_value_of(algorithm, digits as nat)
        },
        (digits == 0 || digits > MAX_DIGITS) ==> (r matches Err(e) && e
            == PiError::InvalidDigitCount),
        (1 <= digits <= MAX_DIGITS && threads == 0) ==> (r matches Err(e) && e
            == PiError::InvalidThreadCount),
        (plan_ok(digits as nat, threads as nat) && !pi_computable_with(algorithm, digits as nat))
            ==> (r matches Err(e) && e == PiError::InvalidRange),
{
    let p = match plan(digits, threads, algorithm) {
        Ok(p) => p,
        Err(e) => {
            return Err(e);
        },
    };
    match p.algorithm {
        Algorithm::BbpDirect => {
            proof {
                vstd::arithmetic::mul::lemma_mul_inequality(
                    digits as int,
                    MAX_DIGITS as int,
                    LOG2_10_SCALED as int,
                );
                vstd::arithmetic::div_mod::lemma_div_is_ordered(
                    digits * LOG2_10_SCALED + (LOG2_10_SCALE - 1),
                    332193099999,
                    LOG2_10_SCALE as int,
                );
                vstd::arithmetic::div_mod::lemma_div_is_ordered(
                    precision_bits_of(digits as nat),
                    MAX_PRECISION_BITS as int,
                    4,
                );
            }
            let sum = bbp_range_sum(0, p.terms, p.precision_bits);
            assemble_bbp_sum(&sum, digits, p.precision_bits)
        },
        Algorithm::ChudnovskyDirect => {
            proof {
                vstd::arithmetic::div_mod::lemma_div_is_ordered(
                    digits * planner::CHUD_DIGITS_PER_TERM_SCALE + (
                    planner::CHUD_DIGITS_PER_TERM_SCALED - 1),
                    10000141815,
                    planner::CHUD_DIGITS_PER_TERM_SCALED as int,
                );
            }
            let f: u64 = digits + GUARD_DECIMAL_DIGITS;
            let sum = chud_range_sum(0, p.terms, f);
            assemble_direct(&sum, digits)
        },
        _ => compute_pi(digits, threads),
    }
}

} // verus!
