use thermal_berry::commands::{uniform_boosts, FanSlot};
use thermal_berry::config::{Config, FanMode};
use thermal_berry::monitor::{next_sleep_ms, purge_due, purge_step};
use thermal_berry::thermal::alienware::{
    boost_from_raw, boost_range, default_fan_label, default_sensor_label, fan_attr, fan_id,
    millicelsius_from_raw, rpm_from_raw, temp_attr,
};
use thermal_berry::tray::{menu_action, mode_checks, tray_checks, TrayAction};

#[test]
fn tray_menu_actions() {
    let mut config = Config::default();
    config.all_fans_boost.percent = 80;
    assert_eq!(menu_action("open", &config), TrayAction::Open);
    assert_eq!(menu_action("quit", &config), TrayAction::Quit);
    assert_eq!(
        menu_action("boost_all", &config),
        TrayAction::AllFansBoost { enabled: true, percent: 80 }
    );
    config.all_fans_boost.enabled = true;
    assert_eq!(
        menu_action("boost_all", &config),
        TrayAction::AllFansBoost { enabled: false, percent: 80 }
    );
    assert_eq!(menu_action("mode_auto", &config), TrayAction::AutoMode { percent: 80 });
    assert_eq!(menu_action("mode_disabled", &config), TrayAction::DisableControl { percent: 80 });
    assert_eq!(menu_action("status", &config), TrayAction::Nothing);
}

#[test]
fn tray_mode_checks_are_exclusive() {
    assert_eq!(mode_checks(FanMode::Auto), (true, false));
    assert_eq!(mode_checks(FanMode::Disabled), (false, true));
    assert_eq!(mode_checks(FanMode::Manual), (false, false));
}

#[test]
fn monitor_loop_timing() {
    assert!(purge_due(None));
    assert!(!purge_due(Some(3_599_999)));
    assert!(purge_due(Some(3_600_000)));
    assert_eq!(next_sleep_ms(0, 2000, None), Some(250));
    assert_eq!(next_sleep_ms(1900, 2000, Some(2000)), Some(100));
    assert_eq!(next_sleep_ms(2000, 2000, Some(2000)), None);
    assert_eq!(next_sleep_ms(5000, 1000, None), None);
    // Before the first sleep only the starting interval counts; after a
    // sleep a lowered interval cuts the wait short, a raised one does not
    // lengthen it.
    assert_eq!(next_sleep_ms(1500, 60_000, None), Some(250));
    assert_eq!(next_sleep_ms(1500, 60_000, Some(1000)), None);
    assert_eq!(next_sleep_ms(500, 60_000, Some(1000)), Some(250));
    assert_eq!(next_sleep_ms(1900, 2000, Some(60_000)), Some(100));
    assert_eq!(next_sleep_ms(2000, 2000, Some(60_000)), None);
}

#[test]
fn hwmon_names_and_raw_values() {
    assert_eq!(fan_attr(1, "boost"), "fan1_boost");
    assert_eq!(fan_attr(12, "input"), "fan12_input");
    assert_eq!(temp_attr(2, "label"), "temp2_label");
    assert_eq!(fan_id(3), "fan3");
    assert_eq!(default_fan_label(1), "Fan 1");
    assert_eq!(default_sensor_label(4), "Sensor 4");
    assert_eq!(boost_range(), (0, 255));
    assert_eq!(boost_from_raw(-5), 0);
    assert_eq!(boost_from_raw(300), 255);
    assert_eq!(boost_from_raw(128), 128);
    assert_eq!(rpm_from_raw(2400), 2400);
    assert_eq!(rpm_from_raw(-1), u32::MAX);
    assert_eq!(millicelsius_from_raw(52_000), 52_000);
    assert_eq!(millicelsius_from_raw(i64::MAX), i32::MAX);
    assert_eq!(millicelsius_from_raw(i64::MIN), i32::MIN);
}

#[test]
fn uniform_boosts_for_all_fans() {
    let fans = vec![
        FanSlot { id: "fan1".to_string(), boost_range: (0, 255) },
        FanSlot { id: "fan2".to_string(), boost_range: (50, 150) },
    ];
    assert_eq!(uniform_boosts(50, &fans), vec![127, 100]);
    assert_eq!(uniform_boosts(100, &fans), vec![255, 150]);
}

#[test]
fn purge_schedule_over_iterations() {
    let mut last = None;
    let mut purged = Vec::new();
    for now in [0u64, 2_000, 3_599_999, 3_600_000, 3_602_000, 7_199_999, 7_200_000, 20_000_000] {
        let (due, next) = purge_step(last, now);
        last = next;
        purged.push(due);
    }
    assert_eq!(purged, vec![true, false, false, true, false, false, true, true]);
    assert_eq!(last, Some(20_000_000));
    assert_eq!(purge_step(Some(10), 5), (false, Some(10)));
}

#[test]
fn tray_checks_follow_config() {
    let mut config = Config::default();
    config.mode = FanMode::Auto;
    assert_eq!(tray_checks(&config), (false, true, false));
    config.all_fans_boost.enabled = true;
    config.mode = FanMode::Manual;
    assert_eq!(tray_checks(&config), (true, false, false));
    config.all_fans_boost.enabled = false;
    config.mode = FanMode::Disabled;
    assert_eq!(tray_checks(&config), (false, false, true));
}
