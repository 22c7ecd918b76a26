use dice_sim::histogram::{render_histogram, HistRow, Labeling};
use dice_sim::labels::{decimal_string, labels_1_to_n};

fn render(counts: &[u64], labeling: &Labeling, total: u64) -> Vec<HistRow> {
    render_histogram(&counts.to_vec(), labeling, total)
}

#[test]
fn percentages_and_bars_scale() {
    let rows = render(&[10, 20, 5], &Labeling::Indexed, 35);
    assert_eq!(rows.len(), 3);
    // Percentages to two decimals: 28.57%, 57.14%, 14.29%.
    assert_eq!(rows[0].pct_hundredths, Some(2857));
    assert_eq!(rows[1].pct_hundredths, Some(5714));
    assert_eq!(rows[2].pct_hundredths, Some(1429));
    // The largest count reaches the full 50 units; others scale
    // proportionally, e.g. round(5 / 20 * 50) = 13.
    assert_eq!(rows[0].bar_len, 25);
    assert_eq!(rows[1].bar_len, 50);
    assert_eq!(rows[2].bar_len, 13);
    // Counts are carried through unchanged.
    assert_eq!(rows[0].count, 10);
    assert_eq!(rows[1].count, 20);
    assert_eq!(rows[2].count, 5);
}

#[test]
fn indexed_rows_are_labelled_by_index() {
    let rows = render(&[10, 20, 5], &Labeling::Indexed, 35);
    assert_eq!(rows[0].label, "0");
    assert_eq!(rows[1].label, "1");
    assert_eq!(rows[2].label, "2");
}

#[test]
fn named_rows_keep_their_names() {
    let names = vec!["low".to_string(), "mid".to_string(), "high".to_string()];
    let rows = render(&[1, 2, 3], &Labeling::Names(names), 6);
    assert_eq!(rows[0].label, "low");
    assert_eq!(rows[1].label, "mid");
    assert_eq!(rows[2].label, "high");
}

#[test]
fn zero_total_has_no_percentage() {
    let rows = render(&[1, 2], &Labeling::Indexed, 0);
    assert_eq!(rows[0].pct_hundredths, None);
    assert_eq!(rows[1].pct_hundredths, None);
}

#[test]
fn all_zero_counts_have_zero_bars() {
    let rows = render(&[0, 0, 0], &Labeling::Indexed, 9);
    for row in &rows {
        assert_eq!(row.bar_len, 0);
        assert_eq!(row.pct_hundredths, Some(0));
    }
}

#[test]
fn empty_counts_render_nothing() {
    let rows = render(&[], &Labeling::Indexed, 1);
    assert!(rows.is_empty());
}

#[test]
fn bar_rounds_half_up() {
    // 1 / 4 * 50 = 12.5 rounds away from zero to 13.
    let rows = render(&[1, 4], &Labeling::Indexed, 5);
    assert_eq!(rows[0].bar_len, 13);
    assert_eq!(rows[1].bar_len, 50);
}

#[test]
fn decimal_strings() {
    assert_eq!(decimal_string(0), "0");
    assert_eq!(decimal_string(7), "7");
    assert_eq!(decimal_string(10), "10");
    assert_eq!(decimal_string(105), "105");
    assert_eq!(decimal_string(u64::MAX), "18446744073709551615");
}

#[test]
fn face_labels_count_from_one() {
    let labels = labels_1_to_n(12);
    let expected: Vec<String> = (1..=12).map(|k: u32| k.to_string()).collect();
    assert_eq!(labels, expected);
    assert!(labels_1_to_n(0).is_empty());
}
