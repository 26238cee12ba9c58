use num_bigint::BigInt;
use pi_engine::accuracy::{reference_pi, verify_pi_accuracy};
use pi_engine::assembler::assemble;
use pi_engine::errors::{Algorithm, PiError};
use pi_engine::evaluator::{factorial, ChudnovskyCalculator};
use pi_engine::planner::{effective_algorithm, plan, precision_bits, terms_needed};
use pi_engine::reducer::{chudnovsky_triple, partition_ranges};
use pi_engine::spigot::SpigotPiCalculator;
use pi_engine::splitter::{compute_binary_split, merge_split};

#[test]
fn precision_bits_formula() {
    // ceil(1000 * log2(10)) + 32 = 3322 + 32
    assert_eq!(precision_bits(1000), 3354);
    // ceil(1 * 3.32193) = 4
    assert_eq!(precision_bits(1), 36);
}

#[test]
fn terms_needed_formulas() {
    // Chudnovsky: ceil(1000 / 14.1816) + 2 = 71 + 2
    assert_eq!(terms_needed(Algorithm::ChudnovskyBinarySplit, 1000), 73);
    assert_eq!(terms_needed(Algorithm::ChudnovskyDirect, 1000), 73);
    // BBP: 3354 / 4 + 10
    assert_eq!(terms_needed(Algorithm::BbpDirect, 1000), 848);
    assert_eq!(terms_needed(Algorithm::ChudnovskyBinarySplit, 1), 3);
}

#[test]
fn terms_needed_is_monotonic_in_samples() {
    for alg in [Algorithm::BbpDirect, Algorithm::ChudnovskyBinarySplit, Algorithm::HybridAuto] {
        let mut last = 0;
        for d in [1u64, 2, 10, 100, 1000, 10000, 100000, 1000000] {
            let t = terms_needed(alg, d);
            assert!(t >= last);
            last = t;
        }
    }
}

#[test]
fn hybrid_selection_threshold() {
    assert_eq!(effective_algorithm(Algorithm::HybridAuto, 10000), Algorithm::ChudnovskyDirect);
    assert_eq!(
        effective_algorithm(Algorithm::HybridAuto, 10001),
        Algorithm::ChudnovskyBinarySplit,
    );
    assert_eq!(effective_algorithm(Algorithm::BbpDirect, 10001), Algorithm::BbpDirect);
}

#[test]
fn plan_validates_inputs() {
    assert_eq!(plan(0, 4, Algorithm::HybridAuto).unwrap_err(), PiError::InvalidDigitCount);
    assert_eq!(plan(2000000, 4, Algorithm::HybridAuto).unwrap_err(), PiError::InvalidDigitCount);
    assert_eq!(plan(100, 0, Algorithm::HybridAuto).unwrap_err(), PiError::InvalidThreadCount);
    let p = plan(100, 2, Algorithm::HybridAuto).unwrap();
    assert_eq!(p.digits, 100);
    assert_eq!(p.threads, 2);
    assert_eq!(p.algorithm, Algorithm::ChudnovskyDirect);
}

#[test]
fn binary_split_rejects_malformed_range() {
    assert_eq!(compute_binary_split(5, 5).unwrap_err(), PiError::InvalidRange);
    assert_eq!(compute_binary_split(7, 3).unwrap_err(), PiError::InvalidRange);
}

#[test]
fn binary_split_base_case_values() {
    let r = compute_binary_split(0, 1).unwrap();
    assert_eq!(r.p, BigInt::from(13591409u64));
    assert_eq!(r.q, BigInt::from(1u64));
    assert_eq!(r.t, BigInt::from(1u64));
    let r1 = compute_binary_split(1, 2).unwrap();
    // t_1 = -(1 * 1 * 5), q_1 = 1^3 * 640320^3 / 24, p_1 = (A + B) * t_1
    assert_eq!(r1.t, BigInt::from(-5i64));
    assert_eq!(r1.q, BigInt::from(10939058860032000u64));
    assert_eq!(r1.p, BigInt::from(-5i64) * BigInt::from(13591409u64 + 545140134u64));
}

#[test]
fn merge_split_associativity_over_midpoints() {
    let whole = compute_binary_split(0, 64).unwrap();
    for &m in &[32u64, 16, 48] {
        let left = compute_binary_split(0, m).unwrap();
        let right = compute_binary_split(m, 64).unwrap();
        let merged = merge_split(&left, &right);
        assert_eq!(merged.p, whole.p, "m={}", m);
        assert_eq!(merged.q, whole.q, "m={}", m);
        assert_eq!(merged.t, whole.t, "m={}", m);
    }
}

#[test]
fn reduction_matches_single_range() {
    let whole = compute_binary_split(0, 73).unwrap();
    for workers in [1u64, 2, 3, 8, 73, 100] {
        let folded = chudnovsky_triple(73, workers);
        assert_eq!(folded.p, whole.p, "workers={}", workers);
        assert_eq!(folded.q, whole.q, "workers={}", workers);
        assert_eq!(folded.t, whole.t, "workers={}", workers);
    }
}

#[test]
fn partition_is_contiguous_and_near_equal() {
    let ranges = partition_ranges(10, 3);
    let pairs: Vec<(u64, u64)> = ranges.iter().map(|r| (r.start, r.end)).collect();
    assert_eq!(pairs, vec![(0, 4), (4, 8), (8, 10)]);
    let ranges = partition_ranges(8, 4);
    let pairs: Vec<(u64, u64)> = ranges.iter().map(|r| (r.start, r.end)).collect();
    assert_eq!(pairs, vec![(0, 2), (2, 4), (4, 6), (6, 8)]);
    let ranges = partition_ranges(3, 8);
    let pairs: Vec<(u64, u64)> = ranges.iter().map(|r| (r.start, r.end)).collect();
    assert_eq!(pairs, vec![(0, 1), (1, 2), (2, 3)]);
}

#[test]
fn accuracy_accepts_reference_itself() {
    let (accurate, index) = verify_pi_accuracy(reference_pi(), 100);
    assert!(accurate);
    assert_eq!(index, 100);
}

#[test]
fn accuracy_reports_first_divergence() {
    // Corrupt the character at index 8, which is digit index 7:
    // "3.1415926..." -> "3.1415920..."
    let mut s: Vec<char> = reference_pi().chars().collect();
    assert_eq!(s[8], '6');
    s[8] = '0';
    let corrupted: String = s.into_iter().collect();
    let (accurate, index) = verify_pi_accuracy(&corrupted, 100);
    assert!(!accurate);
    assert_eq!(index, 7);
}

#[test]
fn accuracy_ignores_formatting_bytes() {
    let (accurate, index) = verify_pi_accuracy("3.14 15926\n535", 11);
    assert!(accurate);
    assert_eq!(index, 11);
}

#[test]
fn accuracy_clips_to_computed_length() {
    let (accurate, index) = verify_pi_accuracy("3.14", 100);
    assert!(accurate);
    assert_eq!(index, 3);
}

#[test]
fn assemble_rejects_nonpositive_inputs() {
    let err = assemble(&BigInt::from(-1), &BigInt::from(1u64), 10).unwrap_err();
    assert_eq!(err, PiError::InvalidRange);
    let err = assemble(&BigInt::from(13591409u64), &BigInt::from(0u64), 10).unwrap_err();
    assert_eq!(err, PiError::InvalidRange);
}

#[test]
fn spigot_digit_is_zero() {
    let calc = SpigotPiCalculator::new(10, 4);
    assert_eq!(calc.compute_digit(0, 12), 0);
    assert_eq!(calc.compute_digit(7, 12), 0);
}

#[test]
fn spigot_chunks_clip_at_budget() {
    let calc = SpigotPiCalculator::new(10, 4);
    assert_eq!(calc.compute_chunk(0), vec![0u8; 4]);
    assert_eq!(calc.compute_chunk(8), vec![0u8; 4]);
    assert_eq!(calc.compute_chunk(9), vec![0u8; 3]);
    assert_eq!(calc.compute_chunk(12), Vec::<u8>::new());
}

#[test]
fn factorial_values() {
    assert_eq!(factorial(0), BigInt::from(1u64));
    assert_eq!(factorial(1), BigInt::from(1u64));
    assert_eq!(factorial(6), BigInt::from(720u64));
    assert_eq!(factorial(20), BigInt::from(2432902008176640000u64));
}

#[test]
fn term_evaluator_matches_closed_form() {
    let mut calc = ChudnovskyCalculator::new();
    let a = BigInt::from(13591409u64);
    let b = BigInt::from(545140134u64);
    let c = BigInt::from(640320u64);
    for k in 0u64..6 {
        let (num, den) = calc.compute_term(k);
        let sign = if k % 2 == 0 { BigInt::from(1) } else { BigInt::from(-1) };
        let expect_num = sign * factorial(6 * k) * (&a + &b * k);
        let expect_den = factorial(3 * k) * factorial(k).pow(3) * c.pow(3 * k as u32);
        assert_eq!(num, expect_num, "k={}", k);
        assert_eq!(den, expect_den, "k={}", k);
    }
}

#[test]
fn term_ratio_matches_recurrence_factor() {
    // term_k / term_(k-1) == -(6k-5)(2k-1)(6k-1) / (k^3 * 640320^3 / 24)
    // carrying the linear weight; checked cross-multiplied at k = 3.
    let mut calc = ChudnovskyCalculator::new();
    let mut terms = Vec::new();
    for k in 0u64..4 {
        terms.push(calc.compute_term(k));
    }
    let k = 3u64;
    let t_k = BigInt::from(-(((6 * k - 5) * (2 * k - 1) * (6 * k - 1)) as i64));
    let q_k = BigInt::from(k * k * k) * BigInt::from(10939058860032000u64);
    let w_prev = BigInt::from(13591409u64 + 545140134u64 * (k - 1));
    let w_cur = BigInt::from(13591409u64 + 545140134u64 * k);
    let (num_k, den_k) = (&terms[3].0, &terms[3].1);
    let (num_p, den_p) = (&terms[2].0, &terms[2].1);
    assert_eq!(num_k * den_p * &q_k * &w_prev, num_p * den_k * &t_k * &w_cur);
}
