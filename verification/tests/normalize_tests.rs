use chargather::alphabet::Alphabet;
use chargather::histogram::Histogram;
use chargather::scanner::line_process;
use chargather::stats::fiber;
use chargather::stats::fiber_degenerate;
use chargather::stats::max_of;
use chargather::stats::min_of;
use chargather::stats::policy_from_id;
use chargather::stats::sum_of;
use chargather::stats::sum_sq_of;
use chargather::stats::Policy;

#[test]
fn policy_ids_select_the_five_policies() {
    assert_eq!(policy_from_id(0), Some(Policy::MinMax));
    assert_eq!(policy_from_id(1), Some(Policy::SumToOne));
    assert_eq!(policy_from_id(2), Some(Policy::Center));
    assert_eq!(policy_from_id(3), Some(Policy::DivideByMax));
    assert_eq!(policy_from_id(4), Some(Policy::ZScore));
    assert_eq!(policy_from_id(5), None);
    assert_eq!(policy_from_id(255), None);
}

#[test]
fn fiber_statistics_are_exact() {
    let v = vec![4, 1, 7, 7, 2];
    assert_eq!(max_of(&v), 7);
    assert_eq!(min_of(&v), 1);
    assert_eq!(sum_of(&v), 21);
    assert_eq!(sum_sq_of(&v), Some(16 + 1 + 49 + 49 + 4));
}

#[test]
fn sum_of_squares_reports_overflow() {
    // Two squares of u64::MAX exceed 128 bits.
    assert_eq!(sum_sq_of(&vec![u64::MAX, u64::MAX]), None);
    assert_eq!(
        sum_sq_of(&vec![u64::MAX]),
        Some((u64::MAX as u128) * (u64::MAX as u128))
    );
}

#[test]
fn fiber_reads_along_the_neighbor_axis() {
    let alpha = Alphabet::new(vec!['a', 'b']);
    let buf: Vec<char> = "aba".chars().collect();
    let h = line_process(&buf, &alpha, 1, 1);
    // Fiber of base 'b' (index 1) at slot 0: neighbor counts [a: 1, b: 0].
    assert_eq!(fiber(&h, 1, 0), vec![1, 0]);
    assert_eq!(fiber(&h, 0, 0), vec![0, 0]);
}

#[test]
fn degeneracy_follows_each_policy_denominator() {
    let uniform = vec![2, 2, 2];
    assert!(fiber_degenerate(Policy::MinMax, &uniform));
    assert!(fiber_degenerate(Policy::ZScore, &uniform));
    assert!(!fiber_degenerate(Policy::Center, &uniform));
    assert!(!fiber_degenerate(Policy::DivideByMax, &uniform));
    assert!(!fiber_degenerate(Policy::SumToOne, &uniform));

    let zeros = vec![0, 0];
    assert!(fiber_degenerate(Policy::SumToOne, &zeros));
    assert!(fiber_degenerate(Policy::DivideByMax, &zeros));

    let spread = vec![1, 3];
    assert!(!fiber_degenerate(Policy::MinMax, &spread));
    assert!(!fiber_degenerate(Policy::ZScore, &spread));
}

#[test]
fn sum_to_one_fiber_sums_to_one() {
    // Policy 1 on a fiber with nonzero total: the normalized values sum
    // to 1 within floating tolerance.
    let v = vec![1u64, 2, 3];
    let sum = sum_of(&v) as f64;
    let total: f64 = v.iter().map(|&x| x as f64 / sum).sum();
    assert!((total - 1.0).abs() < 1e-12);
}

#[test]
fn min_max_fiber_spans_zero_to_one() {
    // Policy 0 on a fiber with max != min: the normalized minimum is 0
    // and the normalized maximum is 1.
    let v = vec![1u64, 3, 5];
    let min = min_of(&v) as f64;
    let max = max_of(&v) as f64;
    let normalized: Vec<f64> = v.iter().map(|&x| (x as f64 - min) / (max - min)).collect();
    let lo = normalized.iter().cloned().fold(f64::INFINITY, f64::min);
    let hi = normalized.iter().cloned().fold(f64::NEG_INFINITY, f64::max);
    assert_eq!(lo, 0.0);
    assert_eq!(hi, 1.0);
}

#[test]
fn uniform_fiber_propagates_non_finite_values() {
    // A fiber of equal counts: zero denominator under policies 0 and 4,
    // which must propagate non-finite values, while policy 2 yields
    // finite zeros.
    let v = vec![2u64, 2, 2];
    let k = v.len() as f64;
    let min = min_of(&v) as f64;
    let max = max_of(&v) as f64;
    let sum = sum_of(&v) as f64;
    let sum_sq = sum_sq_of(&v).unwrap() as f64;
    let mean = sum / k;
    let stddev = (sum_sq / k - mean * mean).sqrt();

    for &x in &v {
        let min_max = (x as f64 - min) / (max - min);
        assert!(!min_max.is_finite());
        let z = (x as f64 - mean) / stddev;
        assert!(!z.is_finite());
        let centered = x as f64 - mean;
        assert!(centered.is_finite());
        assert_eq!(centered, 0.0);
    }
}

#[test]
fn histogram_round_trips_through_flat_vector() {
    let h = Histogram::from_vec(2, 3, (0..12).collect());
    assert_eq!(h.to_vec(), (0..12).collect::<Vec<u64>>());
    // Row-major layout: cell (b, n, j) sits at (b * k + n) * w + j.
    assert_eq!(h.get(0, 0, 0), 0);
    assert_eq!(h.get(0, 1, 2), 5);
    assert_eq!(h.get(1, 1, 1), 10);
}
