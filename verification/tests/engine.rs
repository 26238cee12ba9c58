use pi_engine::accuracy::verify_pi_accuracy;
use pi_engine::compute_pi;
use pi_engine::compute_pi_with;
use pi_engine::errors::{Algorithm, PiError};
use pi_engine::render::{render_chunked, render_streaming};

fn rendered_string(digits: u64, threads: u64) -> String {
    let approx = compute_pi(digits, threads).unwrap();
    String::from_utf8(render_streaming(&approx)).unwrap()
}

#[test]
fn leading_digits_match_reference_small() {
    for &digits in &[1u64, 10, 50] {
        let s = rendered_string(digits, 2);
        let (accurate, index) = verify_pi_accuracy(&s, digits as usize);
        assert!(accurate, "digits={} diverged at {}", digits, index);
        let expect = std::cmp::min(100, digits as usize);
        assert_eq!(index, expect, "digits={}", digits);
    }
}

#[test]
fn leading_digits_match_reference_thousand() {
    let s = rendered_string(1000, 4);
    let (accurate, index) = verify_pi_accuracy(&s, 1000);
    assert!(accurate, "diverged at {}", index);
    assert_eq!(index, 100);
}

#[test]
fn leading_digits_match_reference_ten_thousand() {
    let s = rendered_string(10000, 8);
    let (accurate, index) = verify_pi_accuracy(&s, 10000);
    assert!(accurate, "diverged at {}", index);
    assert_eq!(index, 100);
}

#[test]
fn one_digit_boundary() {
    // A single fractional digit is emitted by truncation: exactly "3.1",
    // with no separator and no further digits.
    assert_eq!(rendered_string(1, 1), "3.1");
}

#[test]
fn ten_digits_exact() {
    assert_eq!(rendered_string(10, 1), "3.1415926535");
}

#[test]
fn sixty_digits_formatting() {
    assert_eq!(
        rendered_string(60, 3),
        "3.1415926535 8979323846 2643383279 5028841971 6939937510\n5820974944",
    );
}

#[test]
fn zero_digits_rejected() {
    assert_eq!(compute_pi(0, 4).unwrap_err(), PiError::InvalidDigitCount);
}

#[test]
fn oversized_digit_count_rejected() {
    assert_eq!(compute_pi(1000001, 4).unwrap_err(), PiError::InvalidDigitCount);
}

#[test]
fn zero_threads_rejected() {
    assert_eq!(compute_pi(1000, 0).unwrap_err(), PiError::InvalidThreadCount);
}

#[test]
fn determinism_across_thread_counts() {
    let reference = rendered_string(1000, 1);
    for &threads in &[2u64, 4, 8] {
        assert_eq!(rendered_string(1000, threads), reference, "threads={}", threads);
    }
}

#[test]
fn streaming_and_chunked_extraction_identical() {
    let approx = compute_pi(5000, 4).unwrap();
    let streamed = render_streaming(&approx);
    let chunked = render_chunked(&approx, 1000);
    assert_eq!(streamed, chunked);
}

#[test]
fn chunk_size_does_not_change_output() {
    let approx = compute_pi(123, 2).unwrap();
    let streamed = render_streaming(&approx);
    for &chunk in &[1u64, 7, 50, 1000] {
        assert_eq!(render_chunked(&approx, chunk), streamed, "chunk={}", chunk);
    }
}

#[test]
fn direct_strategies_match_reference() {
    for alg in [Algorithm::BbpDirect, Algorithm::ChudnovskyDirect, Algorithm::HybridAuto] {
        let approx = compute_pi_with(alg, 50, 2).unwrap();
        let s = String::from_utf8(render_streaming(&approx)).unwrap();
        let (accurate, index) = verify_pi_accuracy(&s, 50);
        assert!(accurate, "alg={:?} diverged at {}", alg, index);
        assert_eq!(index, 50, "alg={:?}", alg);
    }
}

#[test]
fn strategies_agree_on_requested_digits() {
    let split = rendered_string(200, 2);
    for alg in [Algorithm::BbpDirect, Algorithm::ChudnovskyDirect] {
        let approx = compute_pi_with(alg, 200, 3).unwrap();
        let s = String::from_utf8(render_streaming(&approx)).unwrap();
        assert_eq!(s, split, "alg={:?}", alg);
    }
}

#[test]
fn bbp_thousand_digits() {
    let approx = compute_pi_with(Algorithm::BbpDirect, 1000, 4).unwrap();
    let s = String::from_utf8(render_streaming(&approx)).unwrap();
    let (accurate, index) = verify_pi_accuracy(&s, 1000);
    assert!(accurate, "diverged at {}", index);
    assert_eq!(index, 100);
}

#[test]
fn chudnovsky_direct_thousand_digits() {
    let approx = compute_pi_with(Algorithm::ChudnovskyDirect, 1000, 4).unwrap();
    let s = String::from_utf8(render_streaming(&approx)).unwrap();
    let (accurate, index) = verify_pi_accuracy(&s, 1000);
    assert!(accurate, "diverged at {}", index);
    assert_eq!(index, 100);
}

#[test]
fn hybrid_dispatch_value() {
    // below the threshold the hybrid selection computes the direct-sum value
    let hybrid = compute_pi_with(Algorithm::HybridAuto, 100, 2).unwrap();
    let direct = compute_pi_with(Algorithm::ChudnovskyDirect, 100, 2).unwrap();
    assert_eq!(hybrid.scaled, direct.scaled);
    // above it, the binary-splitting value
    let hybrid = compute_pi_with(Algorithm::HybridAuto, 10001, 2).unwrap();
    let split = compute_pi(10001, 2).unwrap();
    assert_eq!(hybrid.scaled, split.scaled);
}

#[test]
fn compute_pi_with_validates_inputs() {
    for alg in [Algorithm::BbpDirect, Algorithm::ChudnovskyDirect, Algorithm::HybridAuto] {
        assert_eq!(compute_pi_with(alg, 0, 4).unwrap_err(), PiError::InvalidDigitCount);
        assert_eq!(compute_pi_with(alg, 100, 0).unwrap_err(), PiError::InvalidThreadCount);
    }
}
