use matrix::detect::candidates::{next_dirs, ScanStep, MAX_SCAN_DEPTH};
use matrix::detect::manifest::{parse_package, Workspaces};
use matrix::detect::names::{is_library_leaf, is_old_version, is_skipped, is_snapshot, is_versioned_dir, runnable_member_bases};

#[test]
fn versioned_dir_names_are_detected() {
    assert!(is_versioned_dir("paru-2.1.0"));
    assert!(is_versioned_dir("app-1.2"));
    assert!(!is_versioned_dir("real-app"));
    assert!(!is_versioned_dir("my-project"));
}

#[test]
fn snapshot_names_are_detected() {
    assert!(is_snapshot("app_old"));
    assert!(is_snapshot("site.bak"));
    assert!(!is_snapshot("app"));
}

#[test]
fn older_vn_folder_is_old_only_with_a_newer_sibling() {
    let siblings = vec!["v1".to_string(), "v2".to_string(), "docs".to_string()];
    assert!(is_old_version("v1", &siblings));
    assert!(!is_old_version("v2", &siblings));
    assert!(!is_old_version("docs", &siblings));
}

#[test]
fn noise_dirs_are_skipped() {
    assert!(is_skipped("node_modules"));
    assert!(is_skipped(".git"));
    assert!(!is_skipped("src"));
}

#[test]
fn library_leaves_are_recognized() {
    assert!(is_library_leaf("/x/packages/ui"));
    assert!(!is_library_leaf("/x/apps/web"));
    assert!(!is_library_leaf("/home/u/src/webapp"));
    assert!(!is_library_leaf("/home/u/work/internal/dashboard"));
    assert!(is_library_leaf("/home/u/src/mono/packages/ui-kit"));
    assert!(is_library_leaf("/home/u/src/mono/libs/auth"));
}

#[test]
fn conventional_member_bases_without_yaml() {
    let bases = runnable_member_bases(None);
    assert!(bases.iter().any(|b| b == "apps"));
}

#[test]
fn package_json_text_is_read() {
    let pkg = parse_package(
        r#"{"dependencies": {"react": "^18", "vite": "5"}, "devDependencies": {"typescript": "5"},
            "scripts": {"build": "vite build", "dev": "vite", "odd": 3}, "workspaces": ["apps/*", "packages/*"]}"#,
    );
    assert!(matches!(pkg.workspaces, Workspaces::Array(2)));
    assert_eq!(pkg.dependencies, vec!["react".to_string(), "vite".to_string()]);
    assert_eq!(pkg.dev_dependencies, vec!["typescript".to_string()]);
    let scripts = pkg.scripts.expect("scripts");
    assert_eq!(
        scripts,
        vec![
            ("build".to_string(), Some("vite build".to_string())),
            ("dev".to_string(), Some("vite".to_string())),
            ("odd".to_string(), None),
        ]
    );
    let obj = parse_package(r#"{"workspaces": {"packages": ["a"]}, "dependencies": []}"#);
    assert!(matches!(obj.workspaces, Workspaces::Object(1)));
    assert!(obj.dependencies.is_empty());
    assert!(obj.scripts.is_none());
    let bad = parse_package("not json");
    assert!(matches!(bad.workspaces, Workspaces::Absent));
    assert!(bad.dependencies.is_empty() && bad.scripts.is_none());
    assert!(matches!(parse_package("[1, 2]").workspaces, Workspaces::Absent));
}

#[test]
fn scan_goes_on_into_members_and_plain_children_up_to_the_depth_limit() {
    let kids = vec!["app".to_string(), ".git".to_string(), "v1".to_string(), "v2".to_string(), "node_modules".to_string()];
    assert_eq!(next_dirs(&ScanStep::Descend, 0, MAX_SCAN_DEPTH, &kids), vec!["app".to_string(), "v2".to_string()]);
    assert!(next_dirs(&ScanStep::Descend, MAX_SCAN_DEPTH, MAX_SCAN_DEPTH, &kids).is_empty());
    let members = ScanStep::Members(vec!["apps".to_string(), "services".to_string()]);
    assert_eq!(next_dirs(&members, 3, MAX_SCAN_DEPTH, &[]), vec!["apps".to_string(), "services".to_string()]);
    assert!(next_dirs(&ScanStep::Skip, 0, MAX_SCAN_DEPTH, &kids).is_empty());
}
