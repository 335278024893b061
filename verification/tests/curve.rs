use thermal_berry::curve::{
    boost_to_percent, default_points, evaluate, percent_to_boost, sort_points, CurvePoint,
    Hysteresis,
};

fn pts() -> Vec<CurvePoint> {
    default_points()
}

#[test]
fn evaluate_clamps_below_and_above() {
    assert_eq!(evaluate(&pts(), 20_000), 0);
    assert_eq!(evaluate(&pts(), 110_000), 100);
}

#[test]
fn evaluate_hits_exact_points() {
    assert_eq!(evaluate(&pts(), 60_000), 25);
    assert_eq!(evaluate(&pts(), 85_000), 80);
}

#[test]
fn evaluate_interpolates_between_points() {
    // Halfway between (60,25) and (75,55) -> 40
    assert_eq!(evaluate(&pts(), 67_500), 40);
}

#[test]
fn evaluate_empty_returns_zero() {
    assert_eq!(evaluate(&[], 80_000), 0);
}

#[test]
fn evaluate_handles_unsorted_input() {
    let mut reversed = pts();
    reversed.reverse();
    assert_eq!(evaluate(&reversed, 67_500), 40);
}

#[test]
fn hysteresis_rises_immediately() {
    let mut h = Hysteresis::default();
    assert_eq!(h.update(&pts(), 60_000), 25);
    assert_eq!(h.update(&pts(), 75_000), 55);
}

#[test]
fn hysteresis_holds_small_drops() {
    let mut h = Hysteresis::default();
    h.update(&pts(), 75_000);
    // Drops 1°C: within the band, keeps 55%
    assert_eq!(h.update(&pts(), 74_000), 55);
    // Drops 2°C from the applied point: recalculates now
    assert!(h.update(&pts(), 73_000) < 55);
}

#[test]
fn percent_boost_roundtrip() {
    assert_eq!(percent_to_boost(0, (0, 255)), 0);
    assert_eq!(percent_to_boost(100, (0, 255)), 255);
    assert_eq!(percent_to_boost(50, (0, 255)), 127);
    assert_eq!(boost_to_percent(255, (0, 255)), 100);
    assert_eq!(boost_to_percent(127, (0, 255)), 50);
    assert_eq!(boost_to_percent(10, (10, 10)), 0);
}

#[test]
fn evaluate_interpolation_rounds_half_up() {
    // (0 °C, 0 %) -> (10 °C, 1 %): 5 °C is exactly half a percent.
    let points = vec![
        CurvePoint { temp_mc: 0, percent: 0 },
        CurvePoint { temp_mc: 10_000, percent: 1 },
    ];
    assert_eq!(evaluate(&points, 5_000), 1);
    assert_eq!(evaluate(&points, 4_999), 0);
}

#[test]
fn evaluate_decreasing_curve_and_cap() {
    let points = vec![
        CurvePoint { temp_mc: 50_000, percent: 200 },
        CurvePoint { temp_mc: 70_000, percent: 0 },
    ];
    // Above 100 % on the curve is capped.
    assert_eq!(evaluate(&points, 40_000), 100);
    assert_eq!(evaluate(&points, 65_000), 50);
    assert_eq!(evaluate(&points, 90_000), 0);
}

#[test]
fn evaluate_passes_through_every_default_point() {
    for p in pts() {
        assert_eq!(evaluate(&pts(), p.temp_mc), p.percent);
    }
}

#[test]
fn sort_points_is_stable() {
    let points = vec![
        CurvePoint { temp_mc: 70_000, percent: 1 },
        CurvePoint { temp_mc: 50_000, percent: 2 },
        CurvePoint { temp_mc: 70_000, percent: 3 },
        CurvePoint { temp_mc: 40_000, percent: 4 },
    ];
    let sorted = sort_points(&points);
    let order: Vec<u8> = sorted.iter().map(|p| p.percent).collect();
    assert_eq!(order, vec![4, 2, 1, 3]);
}

#[test]
fn hysteresis_follows_curve_after_reset() {
    let mut h = Hysteresis::new();
    assert_eq!(h.update(&pts(), 80_000), 68);
    assert_eq!(h.update(&pts(), 79_000), 68);
    h.reset();
    assert_eq!(h.update(&pts(), 79_000), evaluate(&pts(), 79_000));
    assert!(evaluate(&pts(), 79_000) < 68);
}

#[test]
fn hysteresis_never_below_curve_on_values() {
    let mut h = Hysteresis::new();
    for t in [50_000, 90_000, 89_000, 70_000, 88_500, 60_000, 95_000] {
        let applied = h.update(&pts(), t);
        assert!(applied >= evaluate(&pts(), t));
    }
}

#[test]
fn percent_to_boost_ranges() {
    assert_eq!(percent_to_boost(50, (100, 200)), 150);
    assert_eq!(percent_to_boost(250, (0, 255)), 255);
    assert_eq!(percent_to_boost(33, (10, 10)), 10);
    assert_eq!(boost_to_percent(5, (10, 20)), 0);
    assert_eq!(boost_to_percent(30, (10, 20)), 100);
    assert_eq!(boost_to_percent(15, (10, 20)), 50);
}

#[test]
fn percent_boost_roundtrip_wide_ranges() {
    for p in 0..=100u8 {
        assert_eq!(boost_to_percent(percent_to_boost(p, (0, 255)), (0, 255)), p);
        assert_eq!(boost_to_percent(percent_to_boost(p, (20, 219)), (20, 219)), p);
    }
    // A range of 101 steps loses the round trip for 99 %.
    assert_eq!(boost_to_percent(percent_to_boost(99, (0, 101)), (0, 101)), 98);
}

#[test]
fn evaluate_never_falls_on_a_rising_curve() {
    let points = vec![
        CurvePoint { temp_mc: 80_000, percent: 90 },
        CurvePoint { temp_mc: 40_000, percent: 10 },
        CurvePoint { temp_mc: 60_000, percent: 40 },
        CurvePoint { temp_mc: 60_000, percent: 40 },
    ];
    let mut prev = 0;
    let mut t = 20_000;
    while t <= 100_000 {
        let v = evaluate(&points, t);
        assert!(v >= prev, "at {t}: {v} < {prev}");
        prev = v;
        t += 250;
    }
    assert_eq!(evaluate(&points, 50_000), 25);
}
