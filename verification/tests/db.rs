use thermal_berry::curve::CurvePoint;
use thermal_berry::db::{
    collect_manual_boosts, curve_rows, group_curve_rows, group_samples, manual_boost_rows,
};
use thermal_berry::db::{apply_parsed_settings, apply_plain_settings, load_config, plain_settings, sample_rows, StoredConfig};
use thermal_berry::config::{AllFansBoost, Config, FanMode, TempUnit, Theme};
use thermal_berry::state::{FanReading, Sample, TempReading};
use thermal_berry::table::FanTable;

fn temp(label: &str, m: i32) -> TempReading {
    TempReading { label: label.into(), millicelsius: m }
}

fn fan(id: &str, rpm: u32) -> FanReading {
    FanReading { id: id.into(), label: format!("{id} label"), rpm: Some(rpm), boost_percent: Some(40), max_rpm: Some(6000) }
}

#[test]
fn group_samples_by_timestamp() {
    let temps = vec![
        (3000, temp("CPU", 55_500)),
        (1000, temp("CPU", 50_000)),
        (1000, temp("GPU", 45_000)),
    ];
    let fans = vec![(2000, fan("fan1", 2200)), (1000, fan("fan1", 2000))];
    let samples = group_samples(temps, fans);
    let stamps: Vec<u64> = samples.iter().map(|s| s.timestamp_ms).collect();
    assert_eq!(stamps, vec![1000, 2000, 3000]);
    assert_eq!(samples[0].temps.len(), 2);
    assert_eq!(samples[0].temps[0].label, "CPU");
    assert_eq!(samples[0].temps[1].label, "GPU");
    assert_eq!(samples[0].fans[0].rpm, Some(2000));
    assert!(samples[1].temps.is_empty());
    assert_eq!(samples[1].fans[0].rpm, Some(2200));
    assert_eq!(samples[2].temps[0].millicelsius, 55_500);
    assert!(samples[2].fans.is_empty());
}

#[test]
fn group_samples_empty() {
    assert!(group_samples(vec![], vec![]).is_empty());
}

#[test]
fn curve_rows_roundtrip() {
    let mut curves: FanTable<Vec<CurvePoint>> = FanTable::new();
    curves.insert(
        "fan2".to_string(),
        vec![CurvePoint { temp_mc: 40_000, percent: 0 }, CurvePoint { temp_mc: 90_000, percent: 100 }],
    );
    curves.insert("fan1".to_string(), vec![CurvePoint { temp_mc: 50_000, percent: 30 }]);
    let rows = curve_rows(&curves);
    assert_eq!(rows.len(), 3);
    assert_eq!(rows[0].0, "fan2");
    assert_eq!(rows[1].1, 1);
    assert_eq!(rows[2].0, "fan1");
    // Rows come back from the database ordered by fan id, then position.
    let mut loaded: Vec<(String, u64, CurvePoint)> = rows.clone();
    loaded.sort_by(|a, b| (a.0.clone(), a.1).cmp(&(b.0.clone(), b.1)));
    let point_rows: Vec<(String, CurvePoint)> = loaded.into_iter().map(|r| (r.0, r.2)).collect();
    let back = group_curve_rows(&point_rows);
    assert_eq!(back.len(), 2);
    assert_eq!(back.get("fan2").unwrap(), curves.get("fan2").unwrap());
    assert_eq!(back.get("fan1").unwrap(), curves.get("fan1").unwrap());
}

#[test]
fn manual_boost_rows_roundtrip() {
    let mut boosts: FanTable<u8> = FanTable::new();
    boosts.insert("fan1".to_string(), 42);
    boosts.insert("fan2".to_string(), 7);
    let rows = manual_boost_rows(&boosts);
    assert_eq!(rows, vec![("fan1".to_string(), 42), ("fan2".to_string(), 7)]);
    let back = collect_manual_boosts(&rows);
    assert_eq!(back.get("fan1"), Some(&42));
    assert_eq!(back.get("fan2"), Some(&7));
    assert_eq!(back.len(), 2);
    let dup = collect_manual_boosts(&[("fan1".to_string(), 1), ("fan1".to_string(), 2)]);
    assert_eq!(dup.get("fan1"), Some(&2));
    assert_eq!(dup.len(), 1);
}

#[test]
fn sample_rows_roundtrip() {
    let samples = vec![
        Sample { timestamp_ms: 1000, temps: vec![temp("CPU", 55_500)], fans: vec![fan("fan1", 2200)] },
        Sample { timestamp_ms: 2000, temps: vec![], fans: vec![fan("fan1", 2300), fan("fan2", 1800)] },
        Sample { timestamp_ms: 3000, temps: vec![temp("CPU", 60_000), temp("GPU", 51_000)], fans: vec![] },
    ];
    let mut temp_rows = Vec::new();
    let mut fan_rows = Vec::new();
    for s in samples.clone() {
        let (t, f) = sample_rows(s);
        temp_rows.extend(t);
        fan_rows.extend(f);
    }
    assert_eq!(temp_rows.len(), 3);
    assert_eq!(fan_rows.len(), 3);
    assert!(temp_rows.iter().all(|(ts, _)| *ts == 1000 || *ts == 3000));
    let back = group_samples(temp_rows, fan_rows);
    assert_eq!(back.len(), samples.len());
    for (a, b) in back.iter().zip(samples.iter()) {
        assert_eq!(a.timestamp_ms, b.timestamp_ms);
        let la: Vec<_> = a.temps.iter().map(|t| (t.label.clone(), t.millicelsius)).collect();
        let lb: Vec<_> = b.temps.iter().map(|t| (t.label.clone(), t.millicelsius)).collect();
        assert_eq!(la, lb);
        let fa: Vec<_> = a.fans.iter().map(|f| (f.id.clone(), f.rpm)).collect();
        let fb: Vec<_> = b.fans.iter().map(|f| (f.id.clone(), f.rpm)).collect();
        assert_eq!(fa, fb);
    }
}

#[test]
fn plain_settings_parse_and_fallback() {
    let mut config = thermal_berry::config::Config::default();
    apply_plain_settings(&mut config, Some("5"), Some("\"alienware\""), Some("garbage"));
    assert_eq!(config.update_interval_secs, 5);
    assert_eq!(config.vendor_override.as_deref(), Some("alienware"));
    assert_eq!(config.history_retention_days, 7);
    apply_plain_settings(&mut config, None, Some("null"), Some("30"));
    assert_eq!(config.update_interval_secs, 5);
    assert_eq!(config.vendor_override, None);
    assert_eq!(config.history_retention_days, 30);
    apply_plain_settings(&mut config, Some("-1"), Some("7"), None);
    assert_eq!(config.update_interval_secs, 5);
    assert_eq!(config.vendor_override, None);
}

#[test]
fn plain_settings_texts() {
    let mut config = thermal_berry::config::Config::default();
    config.vendor_override = Some("alienware".to_string());
    let rows = plain_settings(&config);
    assert_eq!(
        rows,
        vec![
            ("updateIntervalSecs", "2".to_string()),
            ("vendorOverride", "\"alienware\"".to_string()),
            ("historyRetentionDays", "7".to_string()),
        ]
    );
    config.vendor_override = None;
    assert_eq!(plain_settings(&config)[1].1, "null");
}

#[test]
fn plain_settings_save_and_load_roundtrip() {
    let mut saved = thermal_berry::config::Config::default();
    saved.update_interval_secs = 45;
    saved.history_retention_days = 365;
    saved.vendor_override = Some("ali\"en\\ware\n".to_string());
    let rows = plain_settings(&saved);
    let mut loaded = thermal_berry::config::Config::default();
    apply_plain_settings(&mut loaded, Some(&rows[0].1), Some(&rows[1].1), Some(&rows[2].1));
    assert_eq!(loaded.update_interval_secs, 45);
    assert_eq!(loaded.history_retention_days, 365);
    assert_eq!(loaded.vendor_override, saved.vendor_override);

    saved.update_interval_secs = u64::MAX;
    saved.history_retention_days = u32::MAX;
    saved.vendor_override = None;
    let rows = plain_settings(&saved);
    apply_plain_settings(&mut loaded, Some(&rows[0].1), Some(&rows[1].1), Some(&rows[2].1));
    assert_eq!(loaded.update_interval_secs, u64::MAX);
    assert_eq!(loaded.history_retention_days, u32::MAX);
    assert_eq!(loaded.vendor_override, None);
}

#[test]
fn parsed_settings_replace_only_present_values() {
    let mut config = thermal_berry::config::Config::default();
    apply_parsed_settings(&mut config, Some(9), None, Some(3));
    assert_eq!(config.update_interval_secs, 9);
    assert_eq!(config.vendor_override, None);
    assert_eq!(config.history_retention_days, 3);
    apply_parsed_settings(&mut config, None, Some(Some("alienware".to_string())), None);
    assert_eq!(config.update_interval_secs, 9);
    assert_eq!(config.vendor_override.as_deref(), Some("alienware"));
    assert_eq!(config.history_retention_days, 3);
}

#[test]
fn curve_rows_drop_empty_curves() {
    let mut curves: FanTable<Vec<CurvePoint>> = FanTable::new();
    curves.insert("fan1".to_string(), vec![]);
    curves.insert("fan2".to_string(), vec![CurvePoint { temp_mc: 50_000, percent: 30 }]);
    let rows = curve_rows(&curves);
    assert_eq!(rows.len(), 1);
    let point_rows: Vec<(String, CurvePoint)> = rows.into_iter().map(|r| (r.0, r.2)).collect();
    let back = group_curve_rows(&point_rows);
    assert_eq!(back.len(), 1);
    assert!(back.get("fan1").is_none());
    assert_eq!(back.get("fan2").unwrap(), curves.get("fan2").unwrap());
}

#[test]
fn load_config_gives_back_the_saved_config() {
    let mut saved = Config::default();
    saved.update_interval_secs = 10;
    saved.temp_unit = TempUnit::Fahrenheit;
    saved.theme = Theme::Dark;
    saved.mode = FanMode::Manual;
    saved.vendor_override = Some("alienware".to_string());
    saved.history_retention_days = 30;
    saved.all_fans_boost = AllFansBoost { enabled: true, percent: 80 };
    saved.manual_boosts.insert("fan2".to_string(), 40);
    saved.manual_boosts.insert("fan1".to_string(), 60);
    saved.curves.insert(
        "fan2".to_string(),
        vec![CurvePoint { temp_mc: 40_000, percent: 10 }, CurvePoint { temp_mc: 80_000, percent: 90 }],
    );
    saved.curves.insert("fan3".to_string(), vec![]);
    saved.curves.insert("fan1".to_string(), vec![CurvePoint { temp_mc: 50_000, percent: 30 }]);

    let settings = plain_settings(&saved);
    // The curve query orders its rows by fan id, then position.
    let mut rows = curve_rows(&saved.curves);
    rows.sort_by(|a, b| (a.0.clone(), a.1).cmp(&(b.0.clone(), b.1)));
    let stored = StoredConfig {
        update_interval: Some(settings[0].1.clone()),
        vendor_override: Some(settings[1].1.clone()),
        retention_days: Some(settings[2].1.clone()),
        temp_unit: Some(saved.temp_unit),
        theme: Some(saved.theme),
        mode: Some(saved.mode),
        all_fans_boost: Some(saved.all_fans_boost),
        manual_boosts: Some(manual_boost_rows(&saved.manual_boosts)),
        curve_points: Some(rows.into_iter().map(|r| (r.0, r.2)).collect()),
    };
    let loaded = load_config(&stored);
    assert_eq!(loaded.update_interval_secs, 10);
    assert_eq!(loaded.temp_unit, TempUnit::Fahrenheit);
    assert_eq!(loaded.theme, Theme::Dark);
    assert_eq!(loaded.mode, FanMode::Manual);
    assert_eq!(loaded.vendor_override.as_deref(), Some("alienware"));
    assert_eq!(loaded.history_retention_days, 30);
    assert_eq!(loaded.all_fans_boost, AllFansBoost { enabled: true, percent: 80 });
    assert_eq!(loaded.manual_boosts.len(), 2);
    assert_eq!(loaded.manual_boosts.get("fan1"), Some(&60));
    assert_eq!(loaded.manual_boosts.get("fan2"), Some(&40));
    assert_eq!(loaded.curves.len(), 2);
    assert_eq!(loaded.curves.get("fan1"), saved.curves.get("fan1"));
    assert_eq!(loaded.curves.get("fan2"), saved.curves.get("fan2"));
    assert!(loaded.curves.get("fan3").is_none());
}

#[test]
fn load_config_falls_back_to_defaults() {
    let stored = StoredConfig {
        update_interval: Some("soon".to_string()),
        vendor_override: None,
        retention_days: Some("-3".to_string()),
        temp_unit: None,
        theme: None,
        mode: None,
        all_fans_boost: None,
        manual_boosts: None,
        curve_points: None,
    };
    let loaded = load_config(&stored);
    let defaults = Config::default();
    assert_eq!(loaded.update_interval_secs, defaults.update_interval_secs);
    assert_eq!(loaded.history_retention_days, defaults.history_retention_days);
    assert_eq!(loaded.vendor_override, None);
    assert_eq!(loaded.mode, defaults.mode);
    assert_eq!(loaded.all_fans_boost, defaults.all_fans_boost);
    assert_eq!(loaded.manual_boosts.len(), 0);
    assert_eq!(loaded.curves.len(), 0);
}

#[test]
fn range_samples_hold_every_row_once() {
    let temps = vec![(1500, temp("CPU", 50_000)), (1000, temp("CPU", 49_000)), (1500, temp("GPU", 40_000))];
    let fans = vec![(2000, fan("fan1", 2100))];
    let samples = group_samples(temps, fans);
    assert!(samples.iter().all(|s| (1000..=2000).contains(&s.timestamp_ms)));
    assert_eq!(samples.iter().map(|s| s.temps.len()).sum::<usize>(), 3);
    assert_eq!(samples.iter().map(|s| s.fans.len()).sum::<usize>(), 1);
}
