use thermal_berry::commands::FanSlot;
use thermal_berry::config::{Config, FanMode};
use thermal_berry::curve::{evaluate, percent_to_boost, CurvePoint};
use thermal_berry::monitor::{max_temp, purge_cutoff, status_line};
use thermal_berry::state::{FanReading, Inner, Sample, TempReading};

fn slots() -> Vec<FanSlot> {
    vec![
        FanSlot { id: "fan1".to_string(), boost_range: (0, 255) },
        FanSlot { id: "fan2".to_string(), boost_range: (0, 255) },
        FanSlot { id: "fan3".to_string(), boost_range: (0, 100) },
    ]
}

#[test]
fn max_temp_of_readings() {
    assert_eq!(max_temp(&[]), None);
    assert_eq!(max_temp(&[40_000, 72_500, 51_000]), Some(72_500));
}

#[test]
fn curve_tick_uses_matching_sensor_or_max() {
    let mut config = Config::default();
    config.curves.insert(
        "fan2".to_string(),
        vec![CurvePoint { temp_mc: 0, percent: 0 }, CurvePoint { temp_mc: 100_000, percent: 100 }],
    );
    let mut inner = Inner::new(config);
    let boosts = inner.curve_tick(&[60_000, 50_000], &slots());
    // fan1 follows the default curve at 60 °C (25 %), fan2 its own at 50 °C,
    // fan3 has no sensor of its own and follows the hottest one (60 °C).
    assert_eq!(boosts, vec![
        Some(percent_to_boost(25, (0, 255))),
        Some(percent_to_boost(50, (0, 255))),
        Some(25),
    ]);
    assert_eq!(inner.curve_states.len(), 3);
}

#[test]
fn curve_tick_without_readings_or_outside_auto() {
    let mut inner = Inner::new(Config::default());
    assert_eq!(inner.curve_tick(&[], &slots()), vec![None, None, None]);
    assert_eq!(inner.curve_states.len(), 0);
    inner.config.mode = FanMode::Manual;
    assert!(inner.curve_tick(&[70_000], &slots()).is_empty());
}

#[test]
fn curve_tick_applies_hysteresis() {
    let mut inner = Inner::new(Config::default());
    let fans = vec![FanSlot { id: "fan1".to_string(), boost_range: (0, 100) }];
    assert_eq!(inner.curve_tick(&[75_000], &fans), vec![Some(55)]);
    assert_eq!(inner.curve_tick(&[74_000], &fans), vec![Some(55)]);
    let low = evaluate(&thermal_berry::curve::default_points(), 73_000);
    assert_eq!(inner.curve_tick(&[73_000], &fans), vec![Some(low)]);
}

#[test]
fn purge_cutoff_from_retention() {
    let mut config = Config::default();
    let day = 24 * 3600 * 1000u64;
    assert_eq!(purge_cutoff(&config, 10 * day), 3 * day);
    config.history_retention_days = 0;
    assert_eq!(purge_cutoff(&config, 10 * day), 9 * day);
    config.history_retention_days = 10_000;
    assert_eq!(purge_cutoff(&config, 10 * day), 0);
}

#[test]
fn status_line_formats_readings() {
    let sample = Sample {
        timestamp_ms: 0,
        temps: vec![
            TempReading { label: "CPU".into(), millicelsius: 52_400 },
            TempReading { label: "GPU".into(), millicelsius: 48_500 },
        ],
        fans: vec![
            FanReading { id: "fan1".into(), label: "CPU Fan".into(), rpm: Some(2400), boost_percent: None, max_rpm: None },
            FanReading { id: "fan2".into(), label: "GPU Fan".into(), rpm: None, boost_percent: None, max_rpm: None },
        ],
    };
    assert_eq!(status_line(&sample), "CPU 52°C · GPU 48°C · 2400 RPM");
    let empty = Sample { timestamp_ms: 0, temps: vec![], fans: vec![] };
    assert_eq!(status_line(&empty), "No readings");
}

#[test]
fn status_line_rounding_matches_float_formatting() {
    for m in [0, 499, 500, 1500, 2500, 52_501, -400, -500, -1500, -2600, 105_999] {
        let sample = Sample {
            timestamp_ms: 0,
            temps: vec![TempReading { label: "T".into(), millicelsius: m }],
            fans: vec![],
        };
        let celsius = m as f32 / 1000.0;
        assert_eq!(status_line(&sample), format!("T {:.0}°C", celsius), "m = {m}");
    }
}
