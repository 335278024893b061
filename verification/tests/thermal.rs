use std::io;
use thermal_berry::text::{decimal_string, str_eq};
use thermal_berry::thermal::alienware::{hwmon_number, is_whitespace, parse_i64, trim_whitespace};
use thermal_berry::thermal::{parse_vendor, vendors, ThermalError, Vendor};
use thermal_berry::uninstall::{install_method, removal_script, InstallMethod};

#[test]
fn error_kinds() {
    assert_eq!(ThermalError::DeviceNotFound.kind(), "device_not_found");
    assert_eq!(ThermalError::UnknownVendor("x".into()).kind(), "unknown_vendor");
    assert_eq!(ThermalError::Unsupported.kind(), "unsupported");
    assert_eq!(ThermalError::PermissionDenied { path: "p".into() }.kind(), "permission_denied");
    assert_eq!(ThermalError::InvalidValue("v".into()).kind(), "invalid_value");
    assert_eq!(
        ThermalError::Io { path: "p".into(), source: io::Error::new(io::ErrorKind::Other, "x") }.kind(),
        "io"
    );
    assert_eq!(ThermalError::Database("d".into()).kind(), "database");
    assert_eq!(ThermalError::Network("n".into()).kind(), "network");
}

#[test]
fn from_io_promotes_permission_errors() {
    let denied = ThermalError::from_io("/sys/x", io::Error::from(io::ErrorKind::PermissionDenied));
    match denied {
        ThermalError::PermissionDenied { path } => assert_eq!(path, "/sys/x"),
        other => panic!("unexpected {other:?}"),
    }
    let missing = ThermalError::from_io("/sys/y", io::Error::from(io::ErrorKind::NotFound));
    match missing {
        ThermalError::Io { path, source } => {
            assert_eq!(path, "/sys/y");
            assert_eq!(source.kind(), io::ErrorKind::NotFound);
        }
        other => panic!("unexpected {other:?}"),
    }
}

#[test]
fn vendor_selection() {
    assert_eq!(vendors(), vec!["alienware".to_string()]);
    assert_eq!(parse_vendor("alienware").unwrap(), Vendor::Alienware);
    match parse_vendor("lenovo") {
        Err(ThermalError::UnknownVendor(name)) => assert_eq!(name, "lenovo"),
        other => panic!("unexpected {other:?}"),
    }
}

#[test]
fn text_helpers() {
    assert_eq!(decimal_string(0), "0");
    assert_eq!(decimal_string(1_234_567), "1234567");
    assert_eq!(decimal_string(u64::MAX), u64::MAX.to_string());
    assert!(str_eq("fan1", "fan1"));
    assert!(!str_eq("fan1", "fan10"));
    assert!(!str_eq("fan1", "fan2"));
}

#[test]
fn uninstall_decisions() {
    assert_eq!(install_method(true, true), InstallMethod::AppImage);
    assert_eq!(install_method(false, true), InstallMethod::Deb);
    assert_eq!(install_method(false, false), InstallMethod::Unknown);
    let deb = removal_script(InstallMethod::Deb);
    assert!(deb.ends_with("dpkg --purge thermal-berry\n"));
    assert!(deb.starts_with("set -e\nrm -f /etc/udev/rules.d/60-thermal-berry.rules\n"));
    let other = removal_script(InstallMethod::AppImage);
    assert!(other.ends_with("--action=change\n"));
}

#[test]
fn hwmon_numbers() {
    assert_eq!(hwmon_number("/x/temp1_input", "45000\n").unwrap(), 45_000);
    assert_eq!(hwmon_number("/x/temp1_input", "  -12 \t\n").unwrap(), -12);
    assert_eq!(hwmon_number("/x/fan1_boost", "+7").unwrap(), 7);
    match hwmon_number("/x/fan1_input", " abc\n") {
        Err(ThermalError::InvalidValue(m)) => assert_eq!(m, "/x/fan1_input: \"abc\""),
        other => panic!("unexpected {other:?}"),
    }
    match hwmon_number("/x/fan1_input", "\n") {
        Err(ThermalError::InvalidValue(m)) => assert_eq!(m, "/x/fan1_input: \"\""),
        other => panic!("unexpected {other:?}"),
    }
}

#[test]
fn i64_parsing_matches_std() {
    for text in [
        "0", "42", "-42", "+42", "007", "-0", "9223372036854775807", "-9223372036854775808",
        "9223372036854775808", "-9223372036854775809", "", "+", "-", "1 2", "12a", "--1", "1.0",
        "99999999999999999999",
    ] {
        assert_eq!(parse_i64(text), text.parse::<i64>().ok(), "{text:?}");
    }
}

#[test]
fn trimming_matches_std() {
    for text in ["", "  ", " a ", "\t\na b\r\n", "x", "\u{3000}y\u{a0}", "a  "] {
        assert_eq!(trim_whitespace(text), text.trim(), "{text:?}");
    }
}

#[test]
fn whitespace_matches_std_on_every_char() {
    for u in 0..=0x10FFFFu32 {
        if let Some(c) = char::from_u32(u) {
            assert_eq!(is_whitespace(c), c.is_whitespace(), "U+{u:04X}");
        }
    }
}

#[test]
fn error_messages() {
    assert_eq!(ThermalError::DeviceNotFound.message(), "no supported thermal device was found on this system");
    assert_eq!(ThermalError::UnknownVendor("acme".into()).message(), "unknown vendor \"acme\"");
    assert_eq!(ThermalError::Unsupported.message(), "this device does not support the requested operation");
    assert_eq!(
        ThermalError::PermissionDenied { path: "/sys/x".into() }.message(),
        "permission denied writing to /sys/x"
    );
    assert_eq!(ThermalError::InvalidValue("bad".into()).message(), "invalid value: bad");
    assert_eq!(ThermalError::Database("locked".into()).message(), "database error: locked");
    assert_eq!(ThermalError::Network("offline".into()).message(), "network error: offline");
    let io_err = io::Error::new(io::ErrorKind::Other, "boom");
    assert_eq!(ThermalError::Io { path: "/sys/y".into(), source: io_err }.message(), "I/O error on /sys/y: boom");
}
