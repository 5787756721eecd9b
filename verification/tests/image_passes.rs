//! Whole-image passes: the affinity driver, the pointwise filters, the
//! contrast stretch, and the output path layout.

use affinity::affinity::{affinity_output, analyze_affinity};
use affinity::filters::{analyze_average, analyze_center_diff, analyze_max_diff, div16};
use affinity::grid::ImageGrid;
use affinity::paths::output_dir;
use affinity::saturate::saturate;
use affinity::score::Metric;
use affinity::window::sample_window;

fn gray(width: usize, height: usize, data: Vec<u8>) -> ImageGrid {
    assert_eq!(data.len(), width * height);
    ImageGrid { width, height, channels: 1, data }
}

#[test]
fn affinity_driver_matches_per_window_outputs() {
    let img = gray(3, 3, vec![1, 2, 3, 4, 5, 6, 7, 8, 9]);
    let out = analyze_affinity(&img, Metric::MinNorm);
    assert_eq!(out.width, 3);
    assert_eq!(out.height, 3);
    assert_eq!(out.channels, 1);
    for y in 0..3 {
        for x in 0..3 {
            let w = sample_window(&img, x, y, 0);
            let expected = affinity_output(&w, Metric::MinNorm);
            assert_eq!(out.get_sample(x, y, 0), expected);
        }
    }
    // the center pixel sees the full 3x3 window
    assert_eq!(out.get_sample(1, 1, 0), 4);
    // the corner pixel sees the 2x2 window [[1,2],[4,5]]
    assert_eq!(out.get_sample(0, 0, 0), 4);
}

#[test]
fn affinity_driver_uniform_image_is_zero() {
    let img = gray(3, 3, vec![5; 9]);
    let out = analyze_affinity(&img, Metric::MinNorm);
    for y in 0..3 {
        for x in 0..3 {
            assert_eq!(out.get_sample(x, y, 0), 0);
        }
    }
}

#[test]
fn affinity_driver_color_channels_are_independent() {
    let mut data: Vec<u8> = Vec::new();
    for v in 1..=9u8 {
        data.push(v); // channel 0: the ascending square
        data.push(5); // channel 1: uniform
        data.push(v); // channel 2: the ascending square again
    }
    let img = ImageGrid { width: 3, height: 3, channels: 3, data };
    let out = analyze_affinity(&img, Metric::MinNorm);
    assert_eq!(out.get_sample(1, 1, 0), 4);
    assert_eq!(out.get_sample(1, 1, 1), 0);
    assert_eq!(out.get_sample(1, 1, 2), 4);
}

#[test]
fn windows_shrink_at_the_borders() {
    let img = gray(4, 3, vec![
        1, 2, 3, 4,
        5, 6, 7, 8,
        9, 10, 11, 12,
    ]);
    // corner: 2x2
    let w = sample_window(&img, 0, 0, 0);
    assert_eq!((w.rows, w.cols), (2, 2));
    assert_eq!(w.vals, vec![1, 2, 5, 6]);
    // top edge: 2 rows, 3 columns
    let w = sample_window(&img, 1, 0, 0);
    assert_eq!((w.rows, w.cols), (2, 3));
    assert_eq!(w.vals, vec![1, 2, 3, 5, 6, 7]);
    // left edge: 3 rows, 2 columns
    let w = sample_window(&img, 0, 1, 0);
    assert_eq!((w.rows, w.cols), (3, 2));
    assert_eq!(w.vals, vec![1, 2, 5, 6, 9, 10]);
    // interior: full 3x3
    let w = sample_window(&img, 2, 1, 0);
    assert_eq!((w.rows, w.cols), (3, 3));
    assert_eq!(w.vals, vec![2, 3, 4, 6, 7, 8, 10, 11, 12]);
    // far corner: 2x2
    let w = sample_window(&img, 3, 2, 0);
    assert_eq!((w.rows, w.cols), (2, 2));
    assert_eq!(w.vals, vec![7, 8, 11, 12]);
}

#[test]
fn max_diff_on_ascending_square() {
    let img = gray(3, 3, vec![1, 2, 3, 4, 5, 6, 7, 8, 9]);
    let out = analyze_max_diff(&img);
    // each pixel sees its clamped 3x3 neighborhood: 2x2 at the corners,
    // 2x3 / 3x2 along the edges, the full square in the middle
    let expected = [4, 5, 4, 7, 8, 7, 4, 5, 4];
    for y in 0..3 {
        for x in 0..3 {
            assert_eq!(out.get_sample(x, y, 0), expected[y * 3 + x]);
        }
    }
}

#[test]
fn max_diff_sees_the_far_corner() {
    // the lone bright sample at the bottom-right corner lies inside the
    // center pixel's neighborhood
    let img = gray(3, 3, vec![0, 0, 0, 0, 0, 0, 0, 0, 9]);
    let out = analyze_max_diff(&img);
    assert_eq!(out.get_sample(1, 1, 0), 9);
    assert_eq!(out.get_sample(2, 2, 0), 9);
    assert_eq!(out.get_sample(0, 0, 0), 0);
}

#[test]
fn center_diff_on_ascending_square() {
    let img = gray(3, 3, vec![1, 2, 3, 4, 5, 6, 7, 8, 9]);
    let out = analyze_center_diff(&img);
    let expected = [4, 4, 3, 4, 4, 4, 3, 4, 4];
    for y in 0..3 {
        for x in 0..3 {
            assert_eq!(out.get_sample(x, y, 0), expected[y * 3 + x]);
        }
    }
}

#[test]
fn center_diff_sees_the_far_corner() {
    let img = gray(3, 3, vec![0, 0, 0, 0, 0, 0, 0, 0, 9]);
    let out = analyze_center_diff(&img);
    assert_eq!(out.get_sample(1, 1, 0), 9);
    assert_eq!(out.get_sample(2, 2, 0), 9);
    assert_eq!(out.get_sample(0, 0, 0), 0);
}

#[test]
fn average_truncates() {
    let a = gray(2, 2, vec![0, 10, 255, 7]);
    let b = gray(2, 2, vec![1, 20, 255, 8]);
    let out = analyze_average(&a, &b);
    assert_eq!(out.get_sample(0, 0, 0), 0);
    assert_eq!(out.get_sample(1, 0, 0), 15);
    assert_eq!(out.get_sample(0, 1, 0), 255);
    assert_eq!(out.get_sample(1, 1, 0), 7);
}

#[test]
fn div16_truncates() {
    let mut img = gray(2, 2, vec![0, 15, 16, 255]);
    div16(&mut img);
    assert_eq!(img.data, vec![0, 0, 1, 15]);
}

#[test]
fn saturate_stretches_to_full_range() {
    let mut img = gray(2, 2, vec![10, 20, 30, 40]);
    saturate(&mut img);
    assert_eq!(img.data, vec![0, 85, 170, 255]);
}

#[test]
fn saturate_flat_channel_goes_to_zero() {
    let mut img = gray(2, 2, vec![7, 7, 7, 7]);
    saturate(&mut img);
    assert_eq!(img.data, vec![0, 0, 0, 0]);
}

#[test]
fn saturate_works_per_channel() {
    let mut img = ImageGrid {
        width: 2,
        height: 1,
        channels: 3,
        data: vec![0, 100, 5, 10, 200, 5],
    };
    saturate(&mut img);
    assert_eq!(img.data, vec![0, 0, 0, 255, 255, 0]);
}

#[test]
fn output_dir_appends_category() {
    assert_eq!(output_dir("output", Some("benign")), "output/benign/");
    assert_eq!(output_dir("output", None), "output/");
    assert_eq!(output_dir("base", Some("validation/malignant")), "base/validation/malignant/");
}
