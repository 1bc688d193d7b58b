use tdigest::oracle::Oracle;

#[test]
fn oracle_sorts_its_input() {
    let o = Oracle::new(vec![30, -5, 12, 0, 12]);
    assert_eq!(o.values, vec![-5, 0, 12, 12, 30]);
}

#[test]
fn oracle_quantile_indexes_sorted_values() {
    let o = Oracle::new(vec![50, 10, 40, 20, 30]);
    // sorted: 10 20 30 40 50, n - 1 = 4
    assert_eq!(o.quantile(0, 1), 10);
    assert_eq!(o.quantile(1, 1), 50);
    assert_eq!(o.quantile(2, 1), 50);
    assert_eq!(o.quantile(1, 2), 30);
    assert_eq!(o.quantile(1, 4), 20);
    // floor(0.3 * 4) = 1
    assert_eq!(o.quantile(3, 10), 20);
}

#[test]
fn oracle_rank_is_lower_bound_over_index_range() {
    let o = Oracle::new(vec![10, 20, 30, 40, 50]);
    let r = o.rank(30);
    assert_eq!(r.num, 2);
    assert_eq!(r.den, 4);
    let below = o.rank(5);
    assert_eq!(below.num, 0);
    let above = o.rank(60);
    assert_eq!(above.num, 5);
    let between = o.rank(35);
    assert_eq!(between.num, 3);
}
