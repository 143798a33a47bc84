use neuro_accel::{chain_segments, generate_segment, SegmentSpec};

#[test]
fn segment_with_plateau() {
    let r = generate_segment(6, 3, true, 9.0, |g| g as f64);
    assert_eq!(r, vec![0.0, 1.0, 2.0, 9.0, 9.0, 9.0]);
}

#[test]
fn segment_without_plateau() {
    let r = generate_segment(5, 3, false, 9.0, |g| g as f64);
    assert_eq!(r, vec![0.0, 1.0, 2.0, 3.0, 4.0]);
}

#[test]
fn empty_segment() {
    let r = generate_segment(0, 3, true, 9.0, |g| g as f64);
    assert!(r.is_empty());
}

fn three(micro: usize, tracking: usize, flicking: usize) -> Vec<SegmentSpec<f64>> {
    vec![
        SegmentSpec { cells: micro, plateau: false, end: 0.4 },
        SegmentSpec { cells: tracking, plateau: false, end: 1.2 },
        SegmentSpec { cells: flicking, plateau: true, end: 2.5 },
    ]
}

fn step(j: usize, g: usize, seed: f64) -> f64 {
    seed + (j as f64 + 1.0) * g as f64
}

#[test]
fn chain_fills_table_in_order() {
    let r = chain_segments(257, &three(20, 40, 30), 0.15, 0.0, step);
    assert_eq!(r.len(), 257);
    for g in 0..20 {
        assert_eq!(r[g], 0.15 + g as f64);
    }
    let seed1 = r[19];
    for m in 0..40 {
        assert_eq!(r[20 + m], seed1 + 2.0 * (m + 1) as f64);
    }
    let seed2 = r[59];
    for m in 0..197 {
        let g = m + 1;
        let expected = if g >= 30 { 2.5 } else { seed2 + 3.0 * g as f64 };
        assert_eq!(r[60 + m], expected);
    }
}

#[test]
fn chain_truncates_when_budget_runs_out() {
    let r = chain_segments(10, &three(8, 40, 30), 1.0, 0.0, step);
    assert_eq!(r.len(), 10);
    for g in 0..8 {
        assert_eq!(r[g], 1.0 + g as f64);
    }
    assert_eq!(r[8], 8.0 + 2.0);
    assert_eq!(r[9], 8.0 + 4.0);
}

#[test]
fn chain_first_segment_takes_everything() {
    let r = chain_segments(5, &three(20, 40, 30), 1.0, 0.0, step);
    assert_eq!(r, vec![1.0, 2.0, 3.0, 4.0, 5.0]);
}

#[test]
fn chain_empty_first_segment_seeds_from_zero() {
    let r = chain_segments(4, &three(0, 2, 30), 1.0, 0.5, step);
    assert_eq!(r, vec![0.5 + 2.0, 0.5 + 4.0, 4.5 + 3.0, 4.5 + 6.0]);
}
