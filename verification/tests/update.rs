use thermal_berry::update::{is_newer, parse_u32, parse_version, tag_version, update_info};

#[test]
fn parses_well_formed_versions() {
    assert_eq!(parse_version("1.2.3"), Some((1, 2, 3)));
    assert_eq!(parse_version("0.1.0"), Some((0, 1, 0)));
}

#[test]
fn rejects_malformed_versions() {
    assert_eq!(parse_version("1.2"), None);
    assert_eq!(parse_version("abc"), None);
    assert_eq!(parse_version(""), None);
}

#[test]
fn compares_versions_numerically_not_lexically() {
    assert!(parse_version("1.10.0") > parse_version("1.9.0"));
    assert!(parse_version("2.0.0") > parse_version("1.99.99"));
    assert!(parse_version("1.0.0") == parse_version("1.0.0"));
}

#[test]
fn parse_version_edge_cases() {
    assert_eq!(parse_version("1.2.3.4"), Some((1, 2, 3)));
    assert_eq!(parse_version("+1.2.3"), Some((1, 2, 3)));
    assert_eq!(parse_version("1.2.3-beta"), None);
    assert_eq!(parse_version("1..3"), None);
    assert_eq!(parse_version("4294967295.0.0"), Some((4294967295, 0, 0)));
    assert_eq!(parse_version("4294967296.0.0"), None);
    assert_eq!(parse_version("-1.0.0"), None);
}

#[test]
fn parse_u32_matches_std() {
    for s in ["0", "+7", "007", "", "+", "12a", "4294967295", "4294967296", "99999999999"] {
        let chars: Vec<char> = s.chars().collect();
        assert_eq!(parse_u32(&chars), s.parse::<u32>().ok(), "input {s:?}");
    }
}

#[test]
fn newer_versions() {
    assert!(is_newer("1.10.0", "1.9.0"));
    assert!(!is_newer("1.9.0", "1.10.0"));
    assert!(!is_newer("1.0.0", "1.0.0"));
    assert!(!is_newer("garbage", "1.0.0"));
    assert!(!is_newer("2.0.0", "dev"));
}

#[test]
fn tag_version_strips_leading_vs() {
    assert_eq!(tag_version("v1.2.3"), "1.2.3");
    assert_eq!(tag_version("vv0.5.0"), "0.5.0");
    assert_eq!(tag_version("1.0.0v"), "1.0.0v");
    assert_eq!(tag_version(""), "");
}

#[test]
fn update_info_from_release() {
    let info = update_info("0.3.1".to_string(), "v0.4.0", "https://example.invalid/r".to_string());
    assert!(info.available);
    assert_eq!(info.latest_version, "0.4.0");
    assert_eq!(info.current_version, "0.3.1");
    assert_eq!(info.release_url, "https://example.invalid/r");
    let same = update_info("0.4.0".to_string(), "v0.4.0", String::new());
    assert!(!same.available);
}
