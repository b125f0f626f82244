use jorup::version::{find_best_match, Version, VersionError, VersionReq};

fn v(major: u64, minor: u64, patch: u64) -> Version {
    Version { major, minor, patch }
}

#[test]
fn version_renders_canonically() {
    assert_eq!(v(1, 2, 0).to_string(), "1.2.0");
    assert_eq!(v(0, 0, 0).to_string(), "0.0.0");
    assert_eq!(v(10, 0, 33).to_string(), "10.0.33");
}

#[test]
fn version_round_trip() {
    for ver in [v(0, 0, 0), v(1, 0, 0), v(1, 2, 0), v(12, 34, 56), v(u64::MAX, 0, 9)] {
        assert_eq!(Version::parse(&ver.to_string()), Ok(ver));
    }
}

#[test]
fn version_parse_rejects_malformed() {
    for bad in [
        "", "1", "1.2", "1.2.3.4", "01.0.0", "1.00.0", "a.b.c", "1.2.x", ".1.2", "1..2", "1.2.",
        " 1.2.3", "1.2.3 ",
    ] {
        assert_eq!(Version::parse(bad), Err(VersionError::InvalidVersionString));
    }
}

#[test]
fn version_parse_component_bounds() {
    assert_eq!(
        Version::parse("18446744073709551615.0.0"),
        Ok(v(18446744073709551615, 0, 0))
    );
    assert_eq!(
        Version::parse("18446744073709551616.0.0"),
        Err(VersionError::InvalidVersionString)
    );
}

#[test]
fn version_order_is_lexicographic() {
    assert!(v(1, 0, 0).le(&v(1, 0, 0)));
    assert!(v(1, 0, 9).le(&v(1, 1, 0)));
    assert!(v(0, 9, 9).le(&v(1, 0, 0)));
    assert!(!v(2, 0, 0).le(&v(1, 9, 9)));
}

#[test]
fn latest_selects_maximum() {
    let tags = vec![v(1, 0, 0), v(1, 2, 0), v(0, 9, 9)];
    assert_eq!(find_best_match(&tags, &VersionReq::Latest), Some(v(1, 2, 0)));
}

#[test]
fn latest_on_empty_set_is_none() {
    let tags: Vec<Version> = Vec::new();
    assert_eq!(find_best_match(&tags, &VersionReq::Latest), None);
}

#[test]
fn exact_selects_exactly_the_member() {
    let tags = vec![v(1, 0, 0), v(1, 2, 0)];
    assert_eq!(
        find_best_match(&tags, &VersionReq::exact(v(1, 0, 0))),
        Some(v(1, 0, 0))
    );
    assert_eq!(find_best_match(&tags, &VersionReq::exact(v(2, 0, 0))), None);
}

#[test]
fn requirement_matching() {
    assert!(VersionReq::Latest.matches(&v(9, 9, 9)));
    assert!(VersionReq::exact(v(1, 0, 0)).matches(&v(1, 0, 0)));
    assert!(!VersionReq::exact(v(1, 0, 0)).matches(&v(1, 0, 1)));
}
