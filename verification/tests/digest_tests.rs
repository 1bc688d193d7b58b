use tdigest::digest::TDigest;
use tdigest::Estimator;
use tdigest::Frac;

fn frac_value(f: &Frac) -> f64 {
    f.num as f64 / f.den as f64
}

#[test]
fn empty_digest_returns_sentinel() {
    // A digest with zero observations answers 0/1 for any quantile.
    let mut d = TDigest::new(100, 1000);
    for &(qn, qd) in &[(0u64, 1u64), (1, 2), (1, 1), (3, 4)] {
        let r = d.estimate(qn, qd);
        assert_eq!(r.num, 0);
        assert_eq!(r.den, 1);
    }
}

#[test]
fn single_point_digest_returns_it_everywhere() {
    let mut d = TDigest::new(100, 1000);
    d.add(42);
    for &(qn, qd) in &[(0u64, 1u64), (1, 4), (1, 2), (3, 4), (1, 1)] {
        let r = d.estimate(qn, qd);
        assert_eq!(r.num, 42 * r.den);
    }
}

#[test]
fn tails_are_exact() {
    let mut d = TDigest::new(100, 10);
    let values = [35, -7, 12, 99, 0, -64, 4, 4, 71, 22, 18, -3];
    for &v in &values {
        d.add(v);
    }
    let lo = d.estimate(0, 1);
    assert_eq!(lo.num, -64);
    assert_eq!(lo.den, 1);
    let hi = d.estimate(1, 1);
    assert_eq!(hi.num, 99);
    assert_eq!(hi.den, 1);
}

#[test]
fn weight_is_conserved_by_flush() {
    let mut d = TDigest::new(100, 7);
    for i in 0..23 {
        d.add(i * 3 - 11);
    }
    d.flush_buffer();
    assert_eq!(d.total_weight, 23);
    assert_eq!(d.buffer.len(), 0);
    let total: u64 = d.centroids.iter().map(|c| c.weight).sum();
    assert_eq!(total, 23);
    let sum: i128 = d.centroids.iter().map(|c| c.sum).sum();
    let expected: i128 = (0..23).map(|i| (i as i128) * 3 - 11).sum();
    assert_eq!(sum, expected);
}

#[test]
fn centroids_sorted_by_mean_after_flush() {
    let mut d = TDigest::new(50, 16);
    let mut v: i64 = 17;
    for _ in 0..500 {
        v = (v * 31 + 7) % 1000 - 500;
        d.add(v);
    }
    d.flush_buffer();
    let cs = &d.centroids;
    assert!(cs.len() >= 2);
    for i in 0..cs.len() - 1 {
        let a = &cs[i];
        let b = &cs[i + 1];
        // cross-multiplied: mean(a) <= mean(b)
        assert!(a.sum * (b.weight as i128) <= b.sum * (a.weight as i128));
        assert!(a.weight >= 1 && b.weight >= 1);
    }
}

#[test]
fn median_of_two_points_is_midpoint() {
    let mut d = TDigest::new(100, 1000);
    d.add(10);
    d.add(20);
    let r = d.estimate(1, 2);
    // exact interpolation: (10 * 2 * 1 + 20 * 2 * 1) / (1 * 1 * 2 * 2)
    assert_eq!(r.num, 60);
    assert_eq!(r.den, 4);
    assert_eq!(frac_value(&r), 15.0);
}

#[test]
fn interpolation_between_three_points() {
    let mut d = TDigest::new(100, 1000);
    d.add(10);
    d.add(20);
    d.add(30);
    let mid = d.estimate(1, 2);
    assert_eq!(mid.num * 1, 20 * mid.den);
    let twothirds = d.estimate(2, 3);
    // target weight 2.0 sits halfway between the anchors at 1.5 and 2.5
    assert_eq!(twothirds.num, 150);
    assert_eq!(twothirds.den, 6);
}

#[test]
fn estimate_is_idempotent_without_adds() {
    let mut d = TDigest::new(100, 8);
    for i in 0..100 {
        d.add((i * i) % 37 - 18);
    }
    let first = d.estimate(3, 10);
    let second = d.estimate(3, 10);
    assert_eq!(first.num, second.num);
    assert_eq!(first.den, second.den);
    let third = d.estimate(3, 10);
    assert_eq!(first.num, third.num);
    assert_eq!(first.den, third.den);
}

#[test]
fn flush_result_ignores_input_order() {
    // The buffered batch is sorted before compaction, so one batch gives
    // the same centroids whatever order the points arrived in.
    let mut a = TDigest::new(100, 1000);
    let mut b = TDigest::new(100, 1000);
    for &v in &[5, 1, 3, -2, 9, 7, 7, 0] {
        a.add(v);
    }
    for &v in &[7, 0, 9, 3, 5, -2, 1, 7] {
        b.add(v);
    }
    a.flush_buffer();
    b.flush_buffer();
    assert_eq!(a.centroids.len(), b.centroids.len());
    for i in 0..a.centroids.len() {
        assert_eq!(a.centroids[i].sum, b.centroids[i].sum);
        assert_eq!(a.centroids[i].weight, b.centroids[i].weight);
    }
}

#[test]
fn min_max_track_immediately() {
    let mut d = TDigest::new(100, 1000);
    d.add(5);
    assert_eq!(d.min, 5);
    assert_eq!(d.max, 5);
    d.add(-9);
    assert_eq!(d.min, -9);
    assert_eq!(d.max, 5);
    d.add(100);
    assert_eq!(d.min, -9);
    assert_eq!(d.max, 100);
}

#[test]
fn add_triggers_flush_at_buffer_bound() {
    let mut d = TDigest::new(100, 4);
    d.add(1);
    d.add(2);
    d.add(3);
    assert_eq!(d.buffer.len(), 3);
    assert_eq!(d.total_weight, 0);
    d.add(4);
    assert_eq!(d.buffer.len(), 0);
    assert_eq!(d.total_weight, 4);
}

#[test]
fn repeated_equal_values_collapse_without_losing_weight() {
    let mut d = TDigest::new(10, 8);
    for _ in 0..64 {
        d.add(7);
    }
    let r = d.estimate(1, 2);
    assert_eq!(r.num, 7 * r.den);
    assert_eq!(d.total_weight, 64);
}
