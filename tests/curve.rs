use neuro_accel::{calculate_curve, generate_sensitivity_curve, CurveShape, TABLE_SIZE};

fn smoothstep(start: f64, end: f64, range: f64, i: usize) -> f64 {
    let t = (i as f64 / range).min(1.0);
    start + (end - start) * (t * t * (3.0 - 2.0 * t))
}

fn exponential(start: f64, end: f64, base: f64, range: f64, i: usize) -> f64 {
    let t = ((base.powf(i as f64) - 1.0) / (base.powf(range) - 1.0)).min(1.0);
    start + (end - start) * t
}

fn shape(n: usize, offset_cells: usize, range_cells: usize, plateau: bool) -> CurveShape {
    CurveShape { n, range_positive: true, offset_cells, range_cells, plateau }
}

#[test]
fn generate_returns_n_samples() {
    for n in [1usize, 2, 10, 257] {
        let r = generate_sensitivity_curve(shape(n, 3, 40, true), 0.0, 0.6, 7.0, |i| i as f64);
        assert_eq!(r.len(), n);
    }
}

#[test]
fn dead_zone_holds_start_value() {
    let r = generate_sensitivity_curve(shape(10, 3, 4, true), 0.0, 0.6, 7.0, |i| 100.0 + i as f64);
    assert_eq!(&r[..3], &[0.6, 0.6, 0.6]);
    assert_eq!(&r[3..7], &[100.0, 101.0, 102.0, 103.0]);
    assert_eq!(&r[7..], &[7.0, 7.0, 7.0]);
}

#[test]
fn dead_zone_longer_than_table() {
    let r = generate_sensitivity_curve(shape(4, 9, 4, true), 0.0, 0.6, 7.0, |i| 100.0 + i as f64);
    assert_eq!(r, vec![0.6; 4]);
}

#[test]
fn degenerate_range_gives_zeros() {
    let s = CurveShape { n: 6, range_positive: false, offset_cells: 2, range_cells: 0, plateau: true };
    let r = generate_sensitivity_curve(s, 0.0, 0.6, 7.0, |i| 100.0 + i as f64);
    assert_eq!(r, vec![0.0; 6]);
}

#[test]
fn empty_table_is_empty() {
    let s = CurveShape { n: 0, range_positive: true, offset_cells: 2, range_cells: 5, plateau: true };
    let r = generate_sensitivity_curve(s, 0.0, 0.6, 7.0, |i| 100.0 + i as f64);
    assert!(r.is_empty());
}

#[test]
fn plateau_holds_end_value() {
    let r = generate_sensitivity_curve(shape(257, 0, 40, true), 0.0, 0.6, 7.0, |i| smoothstep(0.6, 7.0, 40.0, i));
    assert!(r[40..].iter().all(|v| *v == 7.0));
    assert_eq!(r[0], 0.6);
}

#[test]
fn without_plateau_interpolation_runs_to_the_end() {
    let r = generate_sensitivity_curve(shape(8, 1, 3, false), 0.0, 1.0, 2.0, |i| 10.0 + i as f64);
    assert_eq!(r, vec![1.0, 10.0, 11.0, 12.0, 13.0, 14.0, 15.0, 16.0]);
}

#[test]
fn exponential_scenario() {
    let (start, end, base, range) = (0.2, 2.0, 1.05, 5.0);
    let r = generate_sensitivity_curve(shape(10, 0, 5, true), 0.0, start, end, |i| exponential(start, end, base, range, i));
    assert_eq!(r.len(), 10);
    assert_eq!(r[0], 0.2);
    for i in 0..5 {
        assert_eq!(r[i], exponential(start, end, base, range, i));
        if i > 0 {
            assert!(r[i] > r[i - 1]);
        }
        assert!(r[i] < 2.0);
    }
    assert!(r[5..].iter().all(|v| *v == 2.0));
    assert!((exponential(start, end, base, range, 5) - end).abs() < 1e-9);
}

#[test]
fn smoothstep_scenario() {
    let r = generate_sensitivity_curve(shape(5, 2, 10, false), 0.0, 0.0, 1.0, |i| smoothstep(0.0, 1.0, 10.0, i));
    assert_eq!(r.len(), 5);
    assert_eq!(r[0], 0.0);
    assert_eq!(r[1], 0.0);
    for i in 0..3 {
        assert_eq!(r[2 + i], smoothstep(0.0, 1.0, 10.0, i));
    }
    assert!((r[3] - 0.028).abs() < 1e-12);
    assert!((r[4] - 0.104).abs() < 1e-12);
    assert!((smoothstep(0.0, 1.0, 10.0, 10) - 1.0).abs() < 1e-9);
}

#[test]
fn interpolation_is_non_decreasing() {
    let a = generate_sensitivity_curve(shape(257, 3, 40, true), 0.0, 0.6, 7.0, |i| exponential(0.6, 7.0, 1.05, 40.0, i));
    let b = generate_sensitivity_curve(shape(257, 3, 40, true), 0.0, 0.6, 7.0, |i| smoothstep(0.6, 7.0, 40.0, i));
    assert!(a.windows(2).all(|w| w[0] <= w[1]));
    assert!(b.windows(2).all(|w| w[0] <= w[1]));
}

#[test]
fn short_table_is_prefix_of_full_table() {
    let full = generate_sensitivity_curve(shape(257, 3, 40, true), 0.0, 0.6, 7.0, |i| smoothstep(0.6, 7.0, 40.0, i));
    for n in [0usize, 5, 30, 53, 100] {
        let part = generate_sensitivity_curve(shape(n, 3, 40, true), 0.0, 0.6, 7.0, |i| smoothstep(0.6, 7.0, 40.0, i));
        assert_eq!(&part[..], &full[..n]);
    }
}

#[test]
fn calculate_curve_limits_and_pairs() {
    let r = calculate_curve(50, shape(TABLE_SIZE, 0, 40, true), 0.0, 0.6, 7.0, |i| smoothstep(0.6, 7.0, 40.0, i));
    assert_eq!(r.len(), 50);
    for (k, (x, _)) in r.iter().enumerate() {
        assert_eq!(*x, k);
    }
    assert_eq!(r[0].1, 0.6);
    assert_eq!(r[49].1, 7.0);
    let all = calculate_curve(1000, shape(TABLE_SIZE, 0, 40, true), 0.0, 0.6, 7.0, |i| smoothstep(0.6, 7.0, 40.0, i));
    assert_eq!(all.len(), TABLE_SIZE);
}
