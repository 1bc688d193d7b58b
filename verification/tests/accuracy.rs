//! Regression bound on approximation error against the exact oracle, for a
//! uniform distribution: values in [0, 100] held as fixed-point thousandths.

use tdigest::digest::TDigest;
use tdigest::oracle::Oracle;
use tdigest::Estimator;
use tdigest::Frac;

fn frac_value(f: &Frac) -> f64 {
    f.num as f64 / f.den as f64
}

struct Lcg {
    state: u64,
}

impl Lcg {
    fn next_value(&mut self) -> i64 {
        self.state = self
            .state
            .wrapping_mul(6364136223846793005)
            .wrapping_add(1442695040888963407);
        ((self.state >> 33) % 100_001) as i64
    }
}

#[test]
fn uniform_distribution_error_is_bounded() {
    let n = 100_000;
    let mut d = TDigest::new(100, 1000);
    let mut raw = Vec::with_capacity(n);
    let mut rng = Lcg { state: 42 };
    for _ in 0..n {
        let x = rng.next_value();
        d.add(x);
        raw.push(x);
    }
    let oracle = Oracle::new(raw);

    // q in {0.01, 0.5, 0.99}, as rationals over 100
    for &qn in &[1u64, 50, 99] {
        let q = qn as f64 / 100.0;
        let expected = oracle.quantile(qn, 100) as f64;
        let estimate = frac_value(&d.estimate(qn, 100));

        // relative error in value space stays single-digit percent
        let rel = (estimate - expected).abs() / expected.abs().max(1.0);
        assert!(
            rel < 0.09,
            "q={q}: expected {expected}, estimated {estimate}, rel {rel}"
        );

        // rank-of-estimate error stays within a few thousandths
        let rank = oracle.rank(estimate.round() as i64);
        let rank_q = rank.num as f64 / rank.den as f64;
        assert!(
            (rank_q - q).abs() < 0.008,
            "q={q}: rank of estimate {rank_q}"
        );
    }
}

#[test]
fn bounded_memory_despite_many_points() {
    let mut d = TDigest::new(100, 1000);
    let mut rng = Lcg { state: 7 };
    for _ in 0..50_000 {
        d.add(rng.next_value());
    }
    d.flush_buffer();
    // the summary stays far smaller than the input
    assert!(d.centroids.len() < 2_000);
    assert_eq!(d.total_weight, 50_000);
}
