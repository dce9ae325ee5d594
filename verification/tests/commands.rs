use matrix::commands::{clamp_selection, compute_command_matches, group_list_message, parse_command, split_flags, start_feedback, status_message, Command};
use matrix::common::ToastTone;
use matrix::config::{Group, Project};
use matrix::engine::ProcessStatus;

fn project(id: &str, name: Option<&str>) -> Project {
    Project {
        id: id.to_string(),
        name: name.map(|n| n.to_string()),
        path: "/p".to_string(),
        port: None,
        command: None,
        env_only: false,
        category: None,
        deps: vec![],
        backend: None,
        env: vec![],
    }
}

#[test]
fn palette_start_stop_restart_commands() {
    assert!(matches!(parse_command("start web"), Command::Start(ref id) if id == "web"));
    assert!(matches!(parse_command("  stop   api "), Command::Stop(ref id) if id == "api"));
    assert!(matches!(parse_command("restart x"), Command::Restart(ref id) if id == "x"));
    assert!(matches!(parse_command("start"), Command::Message(ref m) if m == "Usage: start <project_id>"));
    assert!(matches!(parse_command(""), Command::NoOp));
    assert!(matches!(parse_command("frobnicate"), Command::NoOp));
    assert!(matches!(parse_command("status"), Command::Status));
}

#[test]
fn palette_template_flags() {
    assert!(matches!(parse_command("template -n dev"), Command::TemplateCreate(ref n) if n == "dev"));
    assert!(matches!(parse_command("template -d dev"), Command::TemplateDelete(ref n) if n == "dev"));
    assert!(matches!(parse_command("template -a dev web"), Command::TemplateAdd(ref t, ref p) if t == "dev" && p == "web"));
    assert!(matches!(parse_command("template dev"), Command::TemplateRun(ref n) if n == "dev"));
    assert!(matches!(parse_command("template -a dev"), Command::Message(ref m) if m == "Usage: template -a <template_name> <project_id>"));
}

#[test]
fn palette_project_add_joins_command_words() {
    match parse_command("project web /srv/web npm run dev") {
        Command::ProjectAdd(id, path, cmd) => {
            assert_eq!(id, "web");
            assert_eq!(path, "/srv/web");
            assert_eq!(cmd, "npm run dev");
        }
        _ => panic!("expected a project registration"),
    }
    assert!(matches!(parse_command("project -d web"), Command::ProjectRemove(ref id) if id == "web"));
}

#[test]
fn palette_group_and_open() {
    assert!(matches!(parse_command("group"), Command::GroupList));
    assert!(matches!(parse_command("group start g1"), Command::GroupStart(ref g) if g == "g1"));
    assert!(matches!(parse_command("group stop g1"), Command::GroupStop(ref g) if g == "g1"));
    assert!(matches!(parse_command("open https://x.dev"), Command::Open(ref u) if u == "https://x.dev"));
    assert!(matches!(parse_command("open ftp://x"), Command::Message(ref m) if m == "Usage: open <url>"));
    assert!(matches!(parse_command("detect"), Command::Detect));
    assert!(matches!(parse_command("welcome"), Command::Welcome));
}

#[test]
fn flags_are_split_from_positionals() {
    let args = vec!["-a".to_string(), "x".to_string(), "--".to_string(), "y".to_string()];
    let (pos, fl) = split_flags(&args);
    assert_eq!(pos, vec!["x".to_string(), "y".to_string()]);
    assert_eq!(fl, vec!["a".to_string(), "-".to_string()]);
}

#[test]
fn command_matches_follow_the_typed_prefix() {
    let m = compute_command_matches("sta");
    assert_eq!(m, vec![
        ("start".to_string(), "<project_id>".to_string()),
        ("status".to_string(), "(no args)".to_string()),
    ]);
    assert_eq!(compute_command_matches("").len(), 12);
    assert!(compute_command_matches("zzz").is_empty());
}

#[test]
fn selection_is_clamped_to_the_list() {
    assert_eq!(clamp_selection(5, 2, 1), 1);
    assert_eq!(clamp_selection(1, 2, 1), 1);
    assert_eq!(clamp_selection(3, 0, 0), 0);
    assert_eq!(clamp_selection(3, 0, 2), 1);
}

#[test]
fn status_message_lists_projects() {
    let st = vec![
        (project("web", Some("Web")), ProcessStatus::Running(12)),
        (project("api", None), ProcessStatus::Stopped),
    ];
    assert_eq!(status_message(&st), "web: running (pid 12)\napi: stopped");
    assert_eq!(status_message(&[]), "No projects");
}

#[test]
fn group_list_names_each_group() {
    let groups = vec![Group {
        id: "g1".to_string(),
        name: "Stack".to_string(),
        projects: vec!["a".to_string()],
        infrastructure: vec![],
    }];
    assert_eq!(group_list_message(&groups), "Groups: g1 (Stack)");
    assert_eq!(group_list_message(&[]), "No groups defined");
}

#[test]
fn start_feedback_reports_failure() {
    let (msg, toast) = start_feedback("web", true, &Err("boom".to_string()));
    assert_eq!(msg, "Failed to restart web: boom");
    assert_eq!(toast.message, "failed to restart web: boom");
    assert_eq!(toast.tone, ToastTone::Error);
    let (msg, ok) = start_feedback("web", false, &Ok(()));
    assert_eq!(msg, "web started");
    assert_eq!(ok.message, "started web");
    assert_eq!(ok.source, "tui");
    assert_eq!(ok.tone, ToastTone::Success);
}
