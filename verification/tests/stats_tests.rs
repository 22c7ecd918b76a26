use dice_sim::sim::run_sim;
use dice_sim::stats::{expected_sum_times_two, weighted_sum_total};

#[test]
fn expected_sum_exact_values() {
    // Two six-sided dice: expected sum 7.0, so the numerator over two is 14.
    assert_eq!(expected_sum_times_two(2, 6), 14);
    // One die: (6 + 1) / 2 = 3.5.
    assert_eq!(expected_sum_times_two(1, 6), 7);
    assert_eq!(expected_sum_times_two(1, 6) as f64 / 2.0, 3.5);
    // Three twenty-sided dice: 3 * 10.5 = 31.5.
    assert_eq!(expected_sum_times_two(3, 20), 63);
}

#[test]
fn expected_sum_linear_in_dice() {
    assert_eq!(expected_sum_times_two(4, 6), 2 * expected_sum_times_two(2, 6));
    assert_eq!(expected_sum_times_two(10, 7), 2 * expected_sum_times_two(5, 7));
    assert_eq!(expected_sum_times_two(2, 9), 2 * expected_sum_times_two(1, 9));
}

#[test]
fn weighted_total_exact() {
    // 5*1 + 6*2 + 7*3 = 38.
    let counts = vec![1u64, 2, 3];
    assert_eq!(weighted_sum_total(&counts, 5), 38);
}

#[test]
fn point_mass_mean_is_exact() {
    // All mass at sum value 7 (index 5 above min_sum 2): the empirical
    // mean is exactly 7, whatever the number of rolls.
    let mut counts = vec![0u64; 11];
    counts[5] = 1234;
    let total = weighted_sum_total(&counts, 2);
    assert_eq!(total, 7 * 1234);
    let mean = total as f64 / 1234.0;
    assert_eq!(mean, 7.0);
}

#[test]
fn empirical_mean_converges_to_theory() {
    let res = run_sim(6, 2, 10_000);
    assert_eq!(expected_sum_times_two(2, 6) as f64 / 2.0, 7.0);
    let total = weighted_sum_total(&res.sum_counts, res.min_sum);
    let mean = total as f64 / 10_000.0;
    // Statistical tolerance, not exact equality: the mean of 10_000
    // rolls of 2d6 stays well within half a pip of 7 in practice.
    assert!((mean - 7.0).abs() < 0.5, "empirical mean {mean} strayed from 7.0");
}
