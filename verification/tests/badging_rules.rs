//! The rules of the badging reader beyond the sample report.

use mobsf_engine::aapt::parse_aapt_badging;
use mobsf_engine::tools::manifest_from_badging;

#[test]
fn empty_report_gives_empty_manifest() {
    let m = parse_aapt_badging("");
    assert_eq!(m.package, "");
    assert!(m.version_code.is_none());
    assert!(m.permissions.is_empty());
    assert!(m.activities.is_empty());
    assert!(m.application.is_none());
}

#[test]
fn later_lines_apply_on_top_of_earlier_ones() {
    let a = "package: name='first' versionCode='1'\nsdkVersion:'16'";
    let b = "sdkVersion:'21'\nactivity: name='A'";
    let joined = format!("{}\n{}", a, b);
    let m = parse_aapt_badging(&joined);
    assert_eq!(m.package, "first");
    assert_eq!(m.version_code.as_deref(), Some("1"));
    assert_eq!(m.min_sdk_version, Some(21));
    assert_eq!(m.activities.len(), 1);
    assert_eq!(m.activities[0].name, "A");
}

#[test]
fn a_later_package_record_replaces_version_fields() {
    let m = parse_aapt_badging("package: name='a' versionCode='3'\npackage: name='b'");
    assert_eq!(m.package, "b");
    assert_eq!(m.version_code, None);
}

#[test]
fn repeated_key_keeps_last_value() {
    let m = parse_aapt_badging("package: name='a' name='b' versionName='x'");
    assert_eq!(m.package, "b");
    assert_eq!(m.version_name.as_deref(), Some("x"));
}

#[test]
fn badging_components_never_say_enabled() {
    let m = parse_aapt_badging(
        "application: label='x' enabled='true'\nactivity: name='A' enabled='false'\nservice: name='S'",
    );
    assert_eq!(m.application.as_ref().map(|c| c.enabled), Some(None));
    assert_eq!(m.activities[0].enabled, None);
    assert_eq!(m.services[0].enabled, None);
}

#[test]
fn permission_without_name_is_ignored() {
    let m = parse_aapt_badging("uses-permission: maxSdkVersion='3'\nuses-permission: name='P'");
    assert_eq!(m.permissions.len(), 1);
    assert_eq!(m.permissions[0].name, "P");
    assert_eq!(m.permissions[0].max_sdk_version, None);
}

#[test]
fn sdk_numbers_follow_integer_parsing() {
    let m = parse_aapt_badging(
        "sdkVersion:'+7'\ntargetSdkVersion:'x1'\nmaxSdkVersion:'4294967296'\ncompileSdkVersion:'4294967295'",
    );
    assert_eq!(m.min_sdk_version, Some(7));
    assert_eq!(m.target_sdk_version, None);
    assert_eq!(m.max_sdk_version, None);
    assert_eq!(m.compile_sdk_version, Some(4294967295));
}

#[test]
fn bare_values_and_crlf_lines() {
    let m = parse_aapt_badging(
        "  package: name=com.bare versionCode='9'\r\nreceiver: name='R' exported=yes\r\n",
    );
    assert_eq!(m.package, "com.bare");
    assert_eq!(m.version_code.as_deref(), Some("9"));
    assert_eq!(m.receivers[0].name, "R");
    assert_eq!(m.receivers[0].exported, None);
}

#[test]
fn unterminated_quote_runs_to_end() {
    let m = parse_aapt_badging("package: name='open");
    assert_eq!(m.package, "open");
}

#[test]
fn unknown_records_and_lines_without_colon_are_skipped() {
    let m = parse_aapt_badging("densities: '160'\nsupports-screens\nlocales: '--_--'");
    assert_eq!(m.package, "");
    assert!(m.activities.is_empty());
}

#[test]
fn badging_is_kept_only_with_a_package() {
    assert!(manifest_from_badging("sdkVersion:'16'").is_none());
    let m = manifest_from_badging("package: name='p'\nsdkVersion:'16'").unwrap();
    assert_eq!(m.package, "p");
    assert_eq!(m.min_sdk_version, Some(16));
}

#[test]
fn bare_quoted_value_does_not_swallow_the_next_key() {
    let m = parse_aapt_badging("package: '16' name='p' versionCode='3'");
    assert_eq!(m.package, "p");
    assert_eq!(m.version_code.as_deref(), Some("3"));
}

#[test]
fn quoted_and_bare_pairs_read_back() {
    let m = parse_aapt_badging("package: versionName='x y' name=p versionCode=7");
    assert_eq!(m.package, "p");
    assert_eq!(m.version_code.as_deref(), Some("7"));
    assert_eq!(m.version_name.as_deref(), Some("x y"));
}
