use matrix::config::{absolutize, BackendSpec, MatrixConfig, Project};

fn bare(id: &str, path: &str) -> Project {
    Project {
        id: id.to_string(),
        name: None,
        path: path.to_string(),
        port: None,
        command: None,
        env_only: false,
        category: None,
        deps: vec![],
        backend: None,
        env: vec![],
    }
}

#[test]
fn normalize_paths_resolves_relative_paths_against_base() {
    let mut rel = bare("rel", "platform/engine");
    rel.backend = Some(BackendSpec {
        path: "services/db".to_string(),
        command: None,
        port: None,
        deps: vec![],
        env: vec![],
        category: None,
    });
    let mut config = MatrixConfig {
        projects: vec![bare("abs", "/already/absolute"), rel],
        templates: vec![],
        groups: vec![],
        onboarded: false,
    };

    config.normalize_paths("/home/user/.matrix");

    assert_eq!(config.projects[0].path, "/already/absolute");
    assert_eq!(config.projects[1].path, "/home/user/.matrix/platform/engine");
    assert_eq!(
        config.projects[1].backend.as_ref().expect("backend present").path,
        "/home/user/.matrix/services/db"
    );
}

#[test]
fn absolutize_joins_with_single_separator() {
    assert_eq!(absolutize("/base/", "x"), "/base/x");
    assert_eq!(absolutize("/base", "x/y"), "/base/x/y");
    assert_eq!(absolutize("/base", "/abs"), "/abs");
}

#[test]
fn display_name_falls_back_to_path_leaf() {
    let mut p = bare("app", "/srv/web");
    assert_eq!(p.get_name(), "web");
    p.name = Some("My App".to_string());
    assert_eq!(p.get_name(), "My App");
}
