use sam_toolkit::update::{
    asset_name, is_up_to_date, permission_hint, supported_platforms, update_step, version_string,
    UpdateError, UpdateStep,
};

#[test]
fn asset_names_cover_supported_platforms() {
    for platform in supported_platforms() {
        assert_eq!(asset_name(platform).unwrap(), format!("sam-run-{platform}"));
    }
}

#[test]
fn asset_name_rejects_unsupported_platform() {
    assert!(asset_name("windows-x86_64").is_err());
}

#[test]
fn unsupported_platform_names_the_supported_ones() {
    let err = asset_name("windows-x86_64").unwrap_err();
    assert_eq!(err, UpdateError::UnsupportedPlatform("windows-x86_64".to_string()));
    assert_eq!(
        err.message(),
        "sam-run has no released binary for platform windows-x86_64 \
         (supported: linux-x86_64, linux-aarch64, macos-x86_64, macos-aarch64)"
    );
}

#[test]
fn up_to_date_only_on_exact_match() {
    assert!(is_up_to_date(Some("abc123"), "abc123"));
    assert!(!is_up_to_date(Some("abc123"), "def456"));
    assert!(!is_up_to_date(None, "abc123"));
    assert!(!is_up_to_date(Some(""), ""));
    assert!(!is_up_to_date(None, ""));
}

#[test]
fn update_steps_follow_the_release() {
    assert_eq!(update_step(Some("abc"), "abc", false), UpdateStep::AlreadyCurrent);
    assert_eq!(update_step(Some("abc"), "abc", true), UpdateStep::AlreadyCurrent);
    assert_eq!(update_step(None, "abc", true), UpdateStep::ReportAvailable);
    assert_eq!(update_step(Some("old"), "abc", false), UpdateStep::Install);
}

#[test]
fn version_string_names_the_commit_or_dev() {
    assert_eq!(version_string("0.1.0", Some("abc123")), "0.1.0 (abc123)");
    assert_eq!(version_string("0.1.0", None), "0.1.0 (dev)");
}

#[test]
fn permission_hint_suggests_sudo_only_when_denied() {
    assert_eq!(
        permission_hint(true, "/usr/local/bin", "ignored"),
        "cannot write to /usr/local/bin: permission denied; re-run with `sudo -E sam-run \
         self-update` or reinstall sam-run to a directory you own"
    );
    assert_eq!(
        permission_hint(false, "/opt", "disk full"),
        "failed to write update into /opt: disk full"
    );
}
