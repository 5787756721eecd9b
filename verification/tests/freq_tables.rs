//! Frequency-table construction: naive enumeration against the
//! closed-form weights, and the table invariants.

use affinity::freq::{build_tables, build_tables_naive, JointTable, SingleTable};
use affinity::window::Window;

fn win(rows: usize, cols: usize, vals: Vec<u8>) -> Window {
    assert_eq!(vals.len(), rows * cols);
    Window { rows, cols, vals }
}

fn single_sum(t: &SingleTable) -> u64 {
    t.counts.iter().sum()
}

fn joint_get(t: &JointTable, a: u8, b: u8) -> u64 {
    t.counts[a as usize * 256 + b as usize]
}

#[test]
fn closed_form_single_weights_3x3() {
    let w = win(3, 3, vec![1, 2, 3, 4, 5, 6, 7, 8, 9]);
    let (single, _) = build_tables(&w);
    // corners weigh 1, edge midpoints 2, the center 4
    assert_eq!(single.counts[1], 1);
    assert_eq!(single.counts[3], 1);
    assert_eq!(single.counts[7], 1);
    assert_eq!(single.counts[9], 1);
    assert_eq!(single.counts[2], 2);
    assert_eq!(single.counts[4], 2);
    assert_eq!(single.counts[6], 2);
    assert_eq!(single.counts[8], 2);
    assert_eq!(single.counts[5], 4);
    assert_eq!(single.counts[0], 0);
    assert_eq!(single.counts[10], 0);
}

#[test]
fn joint_weights_3x3() {
    let w = win(3, 3, vec![1, 2, 3, 4, 5, 6, 7, 8, 9]);
    let (_, joint) = build_tables(&w);
    // edge-center pairs share two sub-windows
    assert_eq!(joint_get(&joint, 5, 2), 2);
    assert_eq!(joint_get(&joint, 5, 4), 2);
    assert_eq!(joint_get(&joint, 6, 5), 2);
    assert_eq!(joint_get(&joint, 8, 5), 2);
    // corner pairs share exactly one
    assert_eq!(joint_get(&joint, 2, 1), 1);
    assert_eq!(joint_get(&joint, 5, 1), 1);
    assert_eq!(joint_get(&joint, 9, 5), 1);
    // diagonal corners and opposite edge midpoints never co-occur
    assert_eq!(joint_get(&joint, 9, 1), 0);
    assert_eq!(joint_get(&joint, 7, 3), 0);
    assert_eq!(joint_get(&joint, 8, 2), 0);
    assert_eq!(joint_get(&joint, 6, 4), 0);
    // no self pairs, no ascending keys
    assert_eq!(joint_get(&joint, 5, 5), 0);
    assert_eq!(joint_get(&joint, 1, 2), 0);
}

#[test]
fn naive_and_closed_form_agree() {
    let windows = vec![
        win(3, 3, vec![1, 2, 3, 4, 5, 6, 7, 8, 9]),
        win(3, 3, vec![5, 5, 5, 5, 5, 5, 5, 5, 5]),
        win(3, 3, vec![5, 5, 5, 5, 5, 2, 3, 5, 5]),
        win(3, 3, vec![0, 255, 0, 255, 0, 255, 0, 255, 0]),
        win(3, 3, vec![7, 7, 1, 7, 1, 1, 2, 2, 7]),
        win(2, 3, vec![1, 2, 3, 4, 5, 6]),
        win(2, 3, vec![9, 9, 9, 1, 9, 1]),
        win(3, 2, vec![1, 2, 3, 4, 5, 6]),
        win(3, 2, vec![4, 4, 4, 4, 8, 8]),
        win(2, 2, vec![10, 200, 10, 50]),
        win(2, 2, vec![0, 0, 0, 0]),
    ];
    for w in &windows {
        let (s_naive, j_naive) = build_tables_naive(w);
        let (s_closed, j_closed) = build_tables(w);
        assert_eq!(s_naive.counts, s_closed.counts);
        assert_eq!(j_naive.counts, j_closed.counts);
    }
}

#[test]
fn single_weights_sum_to_four_per_sub_window() {
    let w = win(3, 3, vec![1, 2, 3, 4, 5, 6, 7, 8, 9]);
    let (single, _) = build_tables(&w);
    assert_eq!(single_sum(&single), 16);

    // repeated values change nothing about the total
    let w = win(3, 3, vec![5, 5, 5, 5, 5, 5, 5, 5, 5]);
    let (single, _) = build_tables(&w);
    assert_eq!(single_sum(&single), 16);

    let w = win(2, 3, vec![9, 9, 9, 1, 9, 1]);
    let (single, _) = build_tables(&w);
    assert_eq!(single_sum(&single), 8);

    let w = win(3, 2, vec![1, 2, 3, 4, 5, 6]);
    let (single, _) = build_tables(&w);
    assert_eq!(single_sum(&single), 8);

    let w = win(2, 2, vec![10, 200, 10, 50]);
    let (single, _) = build_tables(&w);
    assert_eq!(single_sum(&single), 4);
}

#[test]
fn joint_weight_never_exceeds_single_weights() {
    let windows = vec![
        win(3, 3, vec![1, 2, 3, 4, 5, 6, 7, 8, 9]),
        win(3, 3, vec![5, 5, 5, 5, 5, 2, 3, 5, 5]),
        win(3, 3, vec![0, 255, 0, 255, 0, 255, 0, 255, 0]),
        win(2, 3, vec![9, 9, 9, 1, 9, 1]),
        win(2, 2, vec![10, 200, 10, 50]),
    ];
    for w in &windows {
        let (single, joint) = build_tables(w);
        for a in 0..=255u8 {
            for b in 0..a {
                let j = joint_get(&joint, a, b);
                if j > 0 {
                    // the affinity score j / min(single) lies in (0, 1]
                    assert!(j <= single.counts[a as usize]);
                    assert!(j <= single.counts[b as usize]);
                }
            }
        }
    }
}

#[test]
fn uniform_window_has_empty_joint_table() {
    let w = win(3, 3, vec![5, 5, 5, 5, 5, 5, 5, 5, 5]);
    let (single, joint) = build_tables(&w);
    assert_eq!(single.counts[5], 16);
    assert!(joint.counts.iter().all(|&c| c == 0));
}
