//! Affinity scoring: metric behavior, tie-breaking, and the degenerate
//! window shapes.

use affinity::affinity::affinity_output;
use affinity::freq::{build_tables, build_tables_naive, JointTable, SingleTable};
use affinity::score::{select_pair, Metric};
use affinity::window::Window;

fn win(rows: usize, cols: usize, vals: Vec<u8>) -> Window {
    assert_eq!(vals.len(), rows * cols);
    Window { rows, cols, vals }
}

#[test]
fn ascending_3x3_min_norm() {
    // Every pair involving a corner or saturating its rarer value scores
    // 1; the largest difference among those pairs is 4 (5 and 1, 9 and 5).
    let w = win(3, 3, vec![1, 2, 3, 4, 5, 6, 7, 8, 9]);
    assert_eq!(affinity_output(&w, Metric::MinNorm), 4);
}

#[test]
fn ascending_3x3_naive_tables_give_same_output() {
    let w = win(3, 3, vec![1, 2, 3, 4, 5, 6, 7, 8, 9]);
    let (s, j) = build_tables_naive(&w);
    let r = select_pair(&s, &j, Metric::MinNorm);
    assert_eq!(r, affinity_output(&w, Metric::MinNorm));
}

#[test]
fn ascending_3x3_raw_count() {
    // The raw metric prefers the four double co-occurrences; among them
    // (5,2) and (8,5) have the larger difference 3.
    let w = win(3, 3, vec![1, 2, 3, 4, 5, 6, 7, 8, 9]);
    assert_eq!(affinity_output(&w, Metric::RawCount), 3);
}

#[test]
fn ascending_3x3_max_norm() {
    // Top score is 1/2; the pairs (6,2) and (8,4) reach it with
    // difference 4.
    let w = win(3, 3, vec![1, 2, 3, 4, 5, 6, 7, 8, 9]);
    assert_eq!(affinity_output(&w, Metric::MaxNorm), 4);
}

#[test]
fn uniform_window_outputs_zero() {
    let w = win(3, 3, vec![5, 5, 5, 5, 5, 5, 5, 5, 5]);
    assert_eq!(affinity_output(&w, Metric::MinNorm), 0);
    assert_eq!(affinity_output(&w, Metric::MaxNorm), 0);
    assert_eq!(affinity_output(&w, Metric::RawCount), 0);
}

#[test]
fn corner_window_outputs_max_minus_min() {
    // All three pairs of the single sub-window score 1 under the
    // canonical metric, so the widest pair wins: 200 - 10.
    let w = win(2, 2, vec![10, 200, 10, 50]);
    assert_eq!(affinity_output(&w, Metric::MinNorm), 190);
}

#[test]
fn tie_breaks_toward_larger_difference() {
    // (2,1) co-occurs twice with single weights 2 and 13: score 1.
    // (3,1) co-occurs once with single weights 1 and 13: score 1.
    // The tie goes to the larger difference, 3 - 1 = 2.
    let w = win(3, 3, vec![1, 1, 1, 1, 1, 2, 3, 1, 1]);
    let (s, j) = build_tables(&w);
    assert_eq!(s.counts[2], 2);
    assert_eq!(s.counts[3], 1);
    assert_eq!(j.counts[2 * 256 + 1], 2);
    assert_eq!(j.counts[3 * 256 + 1], 1);
    assert_eq!(affinity_output(&w, Metric::MinNorm), 2);
}

#[test]
fn corner_window_spread_with_doubled_extreme() {
    // 100 appears twice, so (100,0) and (100,50) score 1/min = 1 as does
    // (50,0); the widest pair wins under the canonical and raw metrics.
    let w = win(2, 2, vec![100, 100, 0, 50]);
    assert_eq!(affinity_output(&w, Metric::MinNorm), 100);
    assert_eq!(affinity_output(&w, Metric::RawCount), 100);
    // Dividing by the larger single weight instead halves the scores of
    // every pair involving the doubled 100, so (50,0) wins outright.
    assert_eq!(affinity_output(&w, Metric::MaxNorm), 50);
}

#[test]
fn empty_tables_output_zero() {
    let single = SingleTable::new_table();
    let joint = JointTable::new_table();
    assert_eq!(select_pair(&single, &joint, Metric::MinNorm), 0);
    assert_eq!(select_pair(&single, &joint, Metric::RawCount), 0);
}

#[test]
fn two_by_three_window() {
    // Sub-windows {1,2,4,5} and {2,3,5,6}; every corner pair scores 1;
    // the widest such pairs are (5,1) and (6,2), difference 4.
    let w = win(2, 3, vec![1, 2, 3, 4, 5, 6]);
    assert_eq!(affinity_output(&w, Metric::MinNorm), 4);
}
