use matrix::features::logs::{newest_command, ProcessorCommand, SharedLogCache};
use matrix::update::{api_url, asset_download_url, asset_name, available_release, update_step, updated_message, ReleaseAsset, ReleaseData, UpdateStep, REPO};

fn asset(name: &str, id: u64, url: &str) -> ReleaseAsset {
    ReleaseAsset {
        name: Some(name.to_string()),
        id: Some(id),
        browser_download_url: Some(url.to_string()),
    }
}

fn release(tag: Option<&str>) -> ReleaseData {
    ReleaseData {
        tag_name: tag.map(|t| t.to_string()),
        html_url: None,
        assets: Some(vec![
            asset("matrix-Darwin-aarch64", 7, "https://cdn/mac"),
            asset("matrix-Linux-x86_64", 42, "https://cdn/linux"),
        ]),
    }
}

#[test]
fn asset_names_follow_uname_spelling() {
    assert_eq!(asset_name("linux", "x86_64"), "matrix-Linux-x86_64");
    assert_eq!(asset_name("macos", "aarch64"), "matrix-Darwin-aarch64");
    assert_eq!(asset_name("windows", "x86_64"), "matrix-Windows-x86_64");
    assert_eq!(asset_name("freebsd", "x86_64"), "matrix-freebsd-x86_64");
}

#[test]
fn download_url_depends_on_token() {
    let r = release(Some("v2026.08.13.0"));
    assert_eq!(asset_download_url(&r, None, "matrix-Linux-x86_64"), Some("https://cdn/linux".to_string()));
    assert_eq!(
        asset_download_url(&r, Some("t"), "matrix-Linux-x86_64"),
        Some(format!("https://api.github.com/repos/{}/releases/assets/42", REPO))
    );
    assert_eq!(asset_download_url(&r, None, "matrix-Windows-x86_64"), None);
    let bare = ReleaseData { tag_name: None, html_url: None, assets: None };
    assert_eq!(asset_download_url(&bare, None, "matrix-Linux-x86_64"), None);
}

#[test]
fn only_newer_releases_are_offered() {
    let r = release(Some("v2026.08.13.0"));
    let info = available_release("2026.08.12.3", &r).expect("newer release");
    assert_eq!(info.tag, "v2026.08.13.0");
    assert_eq!(info.url, "https://github.com/ItzJoris03/matrix/releases/tag/v2026.08.13.0");
    assert!(available_release("2026.08.13.0", &r).is_none());
    assert!(available_release("2026.08.12.3", &release(None)).is_none());
    assert!(available_release("2026.08.12.3", &release(Some("garbage"))).is_none());
}

#[test]
fn update_steps_and_messages() {
    let r = release(Some("v2026.08.13.0"));
    match update_step("2026.08.12.0", &r, None, "matrix-Linux-x86_64") {
        Ok(UpdateStep::Download { tag, url }) => {
            assert_eq!(tag, "v2026.08.13.0");
            assert_eq!(url, "https://cdn/linux");
        }
        _ => panic!("expected a download"),
    }
    match update_step("2026.08.13.0", &r, None, "matrix-Linux-x86_64") {
        Ok(UpdateStep::UpToDate(m)) => assert_eq!(m, "Already up to date (v2026.08.13.0)."),
        _ => panic!("expected up to date"),
    }
    assert!(matches!(update_step("2026.08.12.0", &release(None), None, "x"), Err(ref e) if e == "no release tag found"));
    assert!(matches!(
        update_step("2026.08.12.0", &r, None, "matrix-Plan9-mips"),
        Err(ref e) if e == "no prebuilt binary for this platform (matrix-Plan9-mips)"
    ));
    assert_eq!(updated_message("v1"), "\u{2714} Updated to v1. Restart Matrix to use the new version.");
    assert_eq!(api_url(), "https://api.github.com/repos/ItzJoris03/matrix/releases/latest");
}

fn cmd(rev: u64) -> ProcessorCommand {
    ProcessorCommand::Process { project_id: "p".to_string(), width: 80, logs: vec![], rev }
}

#[test]
fn bursts_keep_the_newest_request() {
    let ProcessorCommand::Process { rev, .. } = newest_command(cmd(1), vec![cmd(2), cmd(3)]);
    assert_eq!(rev, 3);
    let ProcessorCommand::Process { rev, .. } = newest_command(cmd(1), vec![]);
    assert_eq!(rev, 1);
}

#[test]
fn cache_is_valid_only_for_what_was_stored() {
    let mut c = SharedLogCache::new();
    c.begin_processing(5);
    assert!(!c.is_valid("", 0, 0, 5));
    c.store("p".to_string(), 80, 3, 5, vec![], vec![]);
    assert!(c.is_valid("p", 80, 3, 5));
    assert!(!c.is_valid("p", 80, 3, 6));
    assert!(!c.is_valid("p", 81, 3, 5));
}
