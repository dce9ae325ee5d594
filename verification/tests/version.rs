use matrix::version::{format_version, is_newer, matrix_version_display, needs_onboarding, parse_version};

#[test]
fn date_version_is_zero_padded_with_revision_slot() {
    assert_eq!(format_version("2026.8.12"), "2026.08.12.0");
}

#[test]
fn single_digit_month_and_day_are_padded() {
    assert_eq!(format_version("2026.12.1"), "2026.12.01.0");
    assert_eq!(format_version("2027.1.31"), "2027.01.31.0");
}

#[test]
fn non_date_semver_renders_unchanged() {
    assert_eq!(format_version("1.1.0"), "1.1.0");
    assert_eq!(format_version("0.1.0"), "0.1.0");
}

#[test]
fn invalid_date_components_render_unchanged() {
    assert_eq!(format_version("2026.13.1"), "2026.13.1");
}

#[test]
fn non_three_part_versions_render_unchanged() {
    assert_eq!(format_version("2026.8"), "2026.8");
    assert_eq!(format_version("1.0.0-beta.1"), "1.0.0-beta.1");
}

#[test]
fn onboarding_auto_shows_exactly_once() {
    assert!(needs_onboarding(false));
    assert!(!needs_onboarding(true));
}

#[test]
fn parse_date_tag() {
    assert_eq!(parse_version("v2026.08.12.3"), Some((2026, 8, 12, 3)));
    assert_eq!(parse_version("2026.12.1.0"), Some((2026, 12, 1, 0)));
}

#[test]
fn parse_rejects_non_date() {
    assert_eq!(parse_version("1.1.0"), None);
    assert_eq!(parse_version("v2026.08.12"), None);
    assert_eq!(parse_version("garbage"), None);
}

#[test]
fn newer_comparison() {
    assert!(is_newer("v2026.08.12.3", "v2026.08.12.0"));
    assert!(is_newer("v2026.08.13.0", "v2026.08.12.3"));
    assert!(!is_newer("v2026.08.12.0", "v2026.08.12.3"));
    assert!(!is_newer("v2026.08.12.3", "v2026.08.12.3"));
    assert!(!is_newer("garbage", "v2026.08.12.3"));
}

#[test]
fn day_boundaries_are_checked() {
    assert_eq!(format_version("2026.2.31"), "2026.02.31.0");
    assert_eq!(format_version("2026.2.32"), "2026.2.32");
    assert_eq!(format_version("2026.0.1"), "2026.0.1");
    assert_eq!(format_version("2026.1.0"), "2026.1.0");
}

#[test]
fn newer_is_never_symmetric() {
    let a = "v2026.01.02.0";
    let b = "v2026.01.01.9";
    assert!(is_newer(a, b));
    assert!(!is_newer(b, a));
    assert!(!is_newer(a, a));
}

#[test]
fn parse_rejects_five_parts_and_signs() {
    assert_eq!(parse_version("2026.1.1.0.0"), None);
    assert_eq!(parse_version("2026.-1.1.0"), None);
    assert_eq!(parse_version(""), None);
}

#[test]
fn built_version_takes_priority_over_package_version() {
    assert_eq!(matrix_version_display("v2026.08.12.3", "0.1.0"), "2026.08.12.3");
    assert_eq!(matrix_version_display("", "2026.8.12"), "2026.08.12.0");
}
