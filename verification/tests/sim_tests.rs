use dice_sim::sim::{run_sim, tabulate, SimResult};
use rand::rngs::StdRng;
use rand::{Rng, SeedableRng};

fn seeded_faces(seed: u64, sides: u32, n: usize) -> Vec<u32> {
    let mut rng = StdRng::seed_from_u64(seed);
    let mut faces = Vec::new();
    for _ in 0..n {
        faces.push(rng.gen_range(1..=sides));
    }
    faces
}

#[test]
fn single_die_single_roll() {
    let res = run_sim(6, 1, 1);
    assert_eq!(res.min_sum, 1);
    assert_eq!(res.max_sum, 6);
    assert_eq!(res.face_counts.len(), 6);
    assert_eq!(res.sum_counts.len(), 6);
    let ones: Vec<usize> = (0..6).filter(|&i| res.face_counts[i] != 0).collect();
    assert_eq!(ones.len(), 1);
    let face_idx = ones[0];
    assert_eq!(res.face_counts[face_idx], 1);
    // With one die the roll's sum is the face itself, so the same index
    // holds the one recorded sum.
    for i in 0..6 {
        let expected = if i == face_idx { 1 } else { 0 };
        assert_eq!(res.sum_counts[i], expected);
    }
}

#[test]
fn totals_add_up() {
    let res = run_sim(6, 2, 1000);
    assert_eq!(res.min_sum, 2);
    assert_eq!(res.max_sum, 12);
    assert_eq!(res.face_counts.len(), 6);
    assert_eq!(res.sum_counts.len(), 11);
    let face_total: u64 = res.face_counts.iter().sum();
    let sum_total: u64 = res.sum_counts.iter().sum();
    assert_eq!(face_total, 2000);
    assert_eq!(sum_total, 1000);
}

#[test]
fn two_sided_faces_stay_in_range() {
    // Every draw must land in one of the two face buckets; a draw
    // outside [1, sides] would be lost and break the total.
    let res = run_sim(2, 1, 100);
    assert_eq!(res.face_counts.len(), 2);
    assert_eq!(res.face_counts[0] + res.face_counts[1], 100);
}

#[test]
fn tabulate_known_faces() {
    // One roll of two dice showing 3 and 4: sum 7 sits at index 7 - 2.
    let faces = vec![3u32, 4u32];
    let res = tabulate(6, 2, 1, &faces);
    assert_eq!(res.face_counts, vec![0, 0, 1, 1, 0, 0]);
    let mut expected_sums = vec![0u64; 11];
    expected_sums[5] = 1;
    assert_eq!(res.sum_counts, expected_sums);
    assert_eq!(res.min_sum, 2);
    assert_eq!(res.max_sum, 12);
}

fn assert_same_result(a: &SimResult, b: &SimResult) {
    assert_eq!(a.face_counts, b.face_counts);
    assert_eq!(a.sum_counts, b.sum_counts);
    assert_eq!(a.min_sum, b.min_sum);
    assert_eq!(a.max_sum, b.max_sum);
}

#[test]
fn seeded_runs_are_reproducible() {
    // With a seeded source in place of true randomness, the same seed
    // gives the same face sequence, and tabulation is a function of
    // that sequence alone.
    let faces_a = seeded_faces(42, 6, 2 * 5000);
    let faces_b = seeded_faces(42, 6, 2 * 5000);
    assert_eq!(faces_a, faces_b);
    let res_a = tabulate(6, 2, 5000, &faces_a);
    let res_b = tabulate(6, 2, 5000, &faces_b);
    assert_same_result(&res_a, &res_b);
    // A different seed is allowed to differ (and here does not have to).
    let faces_c = seeded_faces(43, 6, 2 * 5000);
    let res_c = tabulate(6, 2, 5000, &faces_c);
    let sum_c: u64 = res_c.sum_counts.iter().sum();
    assert_eq!(sum_c, 5000);
}
