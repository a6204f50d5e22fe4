use chloride::update::{check_due_at, is_newer, release_choice, version_parts, CHECK_INTERVAL_SECS};

#[test]
fn version_comparison() {
    assert!(is_newer("1.0.1", "1.0.0"));
    assert!(is_newer("v1.2.0", "1.1.9"));
    assert!(is_newer("2.0.0", "1.99.99"));
    assert!(!is_newer("1.0.0", "1.0.0"));
    assert!(!is_newer("v1.0.0", "1.0.0"));
    assert!(!is_newer("0.9.9", "1.0.0"));
    // Unparseable tags must never trigger an update off a real version.
    assert!(!is_newer("nightly", "1.0.0"));
    assert!(!is_newer("", "1.0.0"));
    // Prerelease suffixes compare on the core version only.
    assert!(!is_newer("1.0.0-rc1", "1.0.0"));
    assert!(is_newer("1.0.1-rc1", "1.0.0"));
}

#[test]
fn version_parts_reads_each_field() {
    assert_eq!(version_parts(" v2.10.3+build7 "), (2, 10, 3));
    assert_eq!(version_parts("1.x.4"), (1, 0, 4));
    assert_eq!(version_parts("7"), (7, 0, 0));
    assert_eq!(version_parts("99999999999999999999.1.1"), (0, 1, 1));
}

#[test]
fn stamp_throttles_checks() {
    let now: u64 = 1_700_000_000;
    assert!(check_due_at(None, now), "missing stamp should check");
    assert!(!check_due_at(Some(&now.to_string()), now), "just-checked should not re-check");
    assert!(
        check_due_at(Some(&(now - CHECK_INTERVAL_SECS - 1).to_string()), now),
        "day-old stamp should check"
    );
    assert!(check_due_at(Some("garbage"), now), "corrupt stamp should check");
}

#[test]
fn release_choice_picks_the_first_matching_asset() {
    let assets = vec![
        ("cl-x86_64-pc-windows-msvc.exe".to_string(), "https://w".to_string()),
        ("cl-x86_64-unknown-linux-musl".to_string(), "https://l1".to_string()),
        ("cl-x86_64-unknown-linux-musl".to_string(), "https://l2".to_string()),
    ];
    assert_eq!(
        release_choice("v2.1.0", &assets, "cl-x86_64-unknown-linux-musl"),
        Ok(("2.1.0".to_string(), "https://l1".to_string()))
    );
    assert_eq!(
        release_choice("vv3.0.0", &assets, "cl-x86_64-pc-windows-msvc.exe"),
        Ok(("3.0.0".to_string(), "https://w".to_string()))
    );
    assert_eq!(
        release_choice("v2.1.0", &assets, "cl-aarch64"),
        Err("release v2.1.0 has no `cl-aarch64` asset".to_string())
    );
    assert_eq!(
        release_choice("1.0.0", &Vec::new(), "x"),
        Err("release 1.0.0 has no `x` asset".to_string())
    );
}
