use thermal_berry::commands::{
    check_percent, device_info, fan_index, privileged_outcome, shell_escaped, udev_install_script,
    user_is_valid, write_access, FanInfo, FanSlot, UDEV_RULE_PATH,
};
use thermal_berry::config::{Config, FanMode};
use thermal_berry::curve::{CurvePoint, Hysteresis};
use thermal_berry::state::Inner;
use thermal_berry::thermal::ThermalError;

fn slots() -> Vec<FanSlot> {
    vec![
        FanSlot { id: "fan1".to_string(), boost_range: (0, 255) },
        FanSlot { id: "fan2".to_string(), boost_range: (10, 110) },
    ]
}

fn message(e: ThermalError) -> String {
    match e {
        ThermalError::InvalidValue(m) => m,
        other => panic!("unexpected error {other:?}"),
    }
}

#[test]
fn check_percent_limits() {
    assert!(check_percent(0).is_ok());
    assert!(check_percent(100).is_ok());
    assert_eq!(message(check_percent(101).unwrap_err()), "101% > 100%");
    assert_eq!(message(check_percent(255).unwrap_err()), "255% > 100%");
}

#[test]
fn write_access_needs_fans_all_writable() {
    assert!(!write_access(&[]));
    assert!(write_access(&[true, true]));
    assert!(!write_access(&[true, false]));
}

#[test]
fn device_info_summarises_fans() {
    let fans = vec![
        FanInfo { id: "fan1".into(), label: "CPU Fan".into(), max_rpm: Some(6000), writable: true },
        FanInfo { id: "fan2".into(), label: "GPU Fan".into(), max_rpm: None, writable: false },
    ];
    let info = device_info(
        "alienware".into(),
        "alienware_wmi".into(),
        Some("Alienware m16".into()),
        fans,
        vec!["CPU".into(), "GPU".into()],
        true,
    );
    assert!(!info.write_access);
    assert_eq!(info.available_vendors, vec!["alienware".to_string()]);
    assert_eq!(info.fans.len(), 2);
    assert_eq!(info.sensors, vec!["CPU".to_string(), "GPU".to_string()]);
    let empty = device_info("a".into(), "b".into(), None, vec![], vec![], false);
    assert!(!empty.write_access);
}

#[test]
fn fan_index_finds_first_match() {
    let ids = vec!["fan1".to_string(), "fan2".to_string(), "fan2".to_string()];
    assert_eq!(fan_index(&ids, "fan2").unwrap(), 1);
    assert_eq!(message(fan_index(&ids, "fan9").unwrap_err()), "unknown fan: fan9");
}

#[test]
fn mode_boosts_per_mode() {
    let mut config = Config::default();
    config.manual_boosts.insert("fan2".to_string(), 50);
    let inner = Inner::new(config);
    assert!(inner.mode_boosts(FanMode::Auto, &slots()).is_empty());
    assert_eq!(inner.mode_boosts(FanMode::Manual, &slots()), vec![0, 60]);
    assert_eq!(inner.mode_boosts(FanMode::Disabled, &slots()), vec![0, 10]);
}

#[test]
fn finish_mode_clears_hysteresis() {
    let mut inner = Inner::new(Config::default());
    inner.curve_states.insert("fan1".to_string(), Hysteresis::new());
    inner.finish_mode(FanMode::Disabled);
    assert_eq!(inner.config.mode, FanMode::Disabled);
    assert_eq!(inner.curve_states.len(), 0);
}

#[test]
fn fan_boost_switches_to_manual() {
    let mut inner = Inner::new(Config::default());
    inner.record_fan_boost("fan1".to_string(), 42);
    assert_eq!(inner.config.mode, FanMode::Manual);
    assert_eq!(inner.config.manual_boosts.get("fan1"), Some(&42));
    inner.record_manual_boost("fan2".to_string(), 7);
    assert_eq!(inner.config.manual_boosts.get("fan2"), Some(&7));
}

#[test]
fn store_curve_validates_and_sorts() {
    let mut inner = Inner::new(Config::default());
    inner.curve_states.insert("fan1".to_string(), Hysteresis::new());
    let too_high = vec![
        CurvePoint { temp_mc: 40_000, percent: 0 },
        CurvePoint { temp_mc: 90_000, percent: 101 },
    ];
    assert_eq!(
        message(inner.store_curve("fan1".into(), too_high).unwrap_err()),
        "percent > 100 in the curve"
    );
    let single = vec![CurvePoint { temp_mc: 40_000, percent: 0 }];
    assert_eq!(
        message(inner.store_curve("fan1".into(), single).unwrap_err()),
        "a curve needs at least 2 points"
    );
    assert_eq!(inner.curve_states.len(), 1);
    let unsorted = vec![
        CurvePoint { temp_mc: 90_000, percent: 100 },
        CurvePoint { temp_mc: 40_000, percent: 0 },
    ];
    inner.store_curve("fan1".into(), unsorted).unwrap();
    let stored = inner.config.curves.get("fan1").unwrap();
    assert_eq!(stored[0].temp_mc, 40_000);
    assert_eq!(stored[1].temp_mc, 90_000);
    assert_eq!(inner.curve_states.len(), 0);
}

#[test]
fn all_fans_boost_and_vendor_are_recorded() {
    let mut inner = Inner::new(Config::default());
    inner.set_all_fans_boost(true, 75);
    assert!(inner.config.all_fans_boost.enabled);
    assert_eq!(inner.config.all_fans_boost.percent, 75);
    inner.set_vendor_override("alienware".to_string());
    assert_eq!(inner.config.vendor_override.as_deref(), Some("alienware"));
}

#[test]
fn udev_user_validation() {
    assert!(user_is_valid("alice"));
    assert!(user_is_valid("j.doe-2_x"));
    assert!(user_is_valid("józef"));
    assert!(!user_is_valid("bob smith"));
    assert!(!user_is_valid("x;rm"));
    assert!(user_is_valid(""));
    assert_eq!(
        message(udev_install_script("a'b").unwrap_err()),
        "invalid user: a'b"
    );
}

#[test]
fn udev_script_text() {
    let script = udev_install_script("alice").unwrap();
    let rule = "# Installed by thermal-berry: allows controlling fan boost without root (user: alice)\n\
         ACTION==\"add|change\", SUBSYSTEM==\"hwmon\", ATTR{name}==\"alienware_wmi\", \
         RUN+=\"/bin/sh -c 'chown alice /sys%p/fan*_boost'\"\n";
    let expected = format!(
        "set -e\n\
         printf '%s' '{rule}' > {UDEV_RULE_PATH}\n\
         udevadm control --reload-rules\n\
         udevadm trigger --subsystem-match=hwmon --action=change\n",
        rule = rule.replace('\'', "'\\''"),
    );
    assert_eq!(script, expected);
}

#[test]
fn shell_escaping_of_quotes() {
    assert_eq!(shell_escaped("it's"), "it'\\''s");
    assert_eq!(shell_escaped("plain"), "plain");
}

#[test]
fn privileged_outcomes() {
    assert!(privileged_outcome(true).is_ok());
    match privileged_outcome(false) {
        Err(ThermalError::PermissionDenied { path }) => assert_eq!(path, UDEV_RULE_PATH),
        other => panic!("unexpected {other:?}"),
    }
}
