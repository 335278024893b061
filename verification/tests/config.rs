use thermal_berry::config::{AllFansBoost, Config, FanMode, TempUnit, Theme};
use thermal_berry::state::{Inner, Sample, HISTORY_CAPACITY};
use thermal_berry::table::FanTable;

#[test]
fn config_defaults() {
    let config = Config::default();
    assert_eq!(config.update_interval_secs, 2);
    assert_eq!(config.temp_unit, TempUnit::Celsius);
    assert_eq!(config.theme, Theme::System);
    assert_eq!(config.mode, FanMode::Auto);
    assert_eq!(config.manual_boosts.len(), 0);
    assert_eq!(config.curves.len(), 0);
    assert_eq!(config.vendor_override, None);
    assert_eq!(config.history_retention_days, 7);
    assert_eq!(config.all_fans_boost, AllFansBoost { enabled: false, percent: 50 });
}

#[test]
fn sanitized_interval_and_retention() {
    let mut config = Config::default();
    config.update_interval_secs = 0;
    assert_eq!(config.interval_secs(), 1);
    config.update_interval_secs = 600;
    assert_eq!(config.interval_secs(), 60);
    config.update_interval_secs = 5;
    assert_eq!(config.interval_secs(), 5);
    config.history_retention_days = 0;
    assert_eq!(config.retention_days(), 1);
    config.history_retention_days = 1000;
    assert_eq!(config.retention_days(), 365);
    config.history_retention_days = 30;
    assert_eq!(config.retention_days(), 30);
}

#[test]
fn all_fans_boost_percent_is_capped() {
    assert_eq!(AllFansBoost { enabled: true, percent: 180 }.percent(), 100);
    assert_eq!(AllFansBoost { enabled: true, percent: 75 }.percent(), 75);
}

#[test]
fn fan_table_map_operations() {
    let mut t: FanTable<u8> = FanTable::new();
    assert_eq!(t.get("fan1"), None);
    t.insert("fan1".to_string(), 1);
    t.insert("fan2".to_string(), 2);
    t.insert("fan1".to_string(), 3);
    assert_eq!(t.len(), 2);
    assert_eq!(t.get("fan1"), Some(&3));
    assert!(t.contains("fan2"));
    assert_eq!(t.remove("fan2"), Some(2));
    assert_eq!(t.remove("fan2"), None);
    assert!(!t.contains("fan2"));
    let copy = t.clone();
    assert_eq!(copy.get("fan1"), Some(&3));
    t.clear();
    assert_eq!(t.len(), 0);
}

fn sample(ts: u64) -> Sample {
    Sample { timestamp_ms: ts, temps: vec![], fans: vec![] }
}

#[test]
fn history_keeps_the_latest_samples() {
    let mut inner = Inner::new(Config::default());
    for ts in 0..(HISTORY_CAPACITY as u64 + 15) {
        inner.push_sample(sample(ts));
        assert!(inner.history.len() <= HISTORY_CAPACITY);
    }
    assert_eq!(inner.history.len(), HISTORY_CAPACITY);
    assert_eq!(inner.history.front().unwrap().timestamp_ms, 15);
    assert_eq!(inner.history.back().unwrap().timestamp_ms, HISTORY_CAPACITY as u64 + 14);
}
