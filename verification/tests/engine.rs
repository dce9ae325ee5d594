use matrix::config::{BackendSpec, EnvSpec, Group, Project, Template};
use matrix::engine::launch::{command_for_launch, exit_text, stderr_line, ExitOutcome};
use matrix::engine::manage::HostRule;
use matrix::engine::walk::{StartWalk, WalkStep};
use matrix::engine::{find_available_port, ProcessManager, ProcessStatus};

fn project(id: &str, command: &str) -> Project {
    Project {
        id: id.to_string(),
        name: Some(id.to_string()),
        path: ".".to_string(),
        port: None,
        command: Some(command.to_string()),
        env_only: false,
        category: None,
        deps: vec![],
        backend: None,
        env: vec![],
    }
}

fn free(_p: u16) -> bool {
    true
}

fn status(m: &ProcessManager, id: &str) -> ProcessStatus {
    m.status_of(id).expect("registered")
}

#[test]
fn backend_declaration_registers_virtual_engine() {
    let mut site = project("site.example.com", "pnpm dev");
    site.backend = Some(BackendSpec {
        path: "platform/engine".to_string(),
        command: Some("cargo run".to_string()),
        port: None,
        deps: vec!["plugin-manager".to_string()],
        env: vec![EnvSpec {
            key: "MONGODB_URI".to_string(),
            value: None,
            file: vec![".env".to_string()],
            default: Some("mongodb://127.0.0.1:27017/{{dbname}}".to_string()),
            if_running: None,
            else_value: None,
        }],
        category: None,
    });
    let plain = project("plain-app", "npm run dev");

    let manager = ProcessManager::new(vec![site, plain], vec![], vec![], ".".to_string());

    let statuses = manager.get_statuses();
    let engine = statuses
        .iter()
        .find(|(p, _)| p.id == "engine:site.example.com")
        .expect("virtual engine registered");
    assert_eq!(engine.0.path, "platform/engine");
    assert_eq!(engine.0.command.as_deref(), Some("cargo run"));
    assert_eq!(engine.0.category.as_deref(), Some("platform"));
    assert_eq!(engine.0.deps, vec!["plugin-manager"]);
    assert_eq!(engine.0.env.len(), 1);

    assert!(!statuses.iter().any(|(p, _)| p.id == "engine:plain-app"));
}

#[test]
fn standalone_project_without_port_starts_in_dev_range() {
    let mut m = ProcessManager::new(vec![project("standalone-app", "sleep 5")], vec![], vec![], ".".to_string());
    let plan = m.prepare_start("standalone-app", &[], &free).unwrap().expect("launches");
    assert_eq!(plan.port, 5173);
    assert_eq!(plan.command, "sleep 5");
    assert_eq!(status(&m, "standalone-app"), ProcessStatus::Starting);
    assert_eq!(m.project_port("standalone-app"), Some(5173));
}

#[test]
fn backend_fixed_port_is_used_for_engine() {
    let mut site = project("site.example.com", "sleep 5");
    site.port = Some(5190);
    site.backend = Some(BackendSpec {
        path: ".".to_string(),
        command: Some("sleep 5".to_string()),
        port: Some(3010),
        deps: vec![],
        env: vec![],
        category: None,
    });
    let mut m = ProcessManager::new(vec![site], vec![], vec![], ".".to_string());
    let plan = m.prepare_start("engine:site.example.com", &[], &free).unwrap().expect("launches");
    assert_eq!(plan.port, 3010);
}

#[test]
fn backend_without_fixed_port_uses_parent_plus_one() {
    let mut site = project("site.example.com", "sleep 5");
    site.port = Some(5191);
    site.backend = Some(BackendSpec {
        path: ".".to_string(),
        command: Some("sleep 5".to_string()),
        port: None,
        deps: vec![],
        env: vec![],
        category: None,
    });
    let mut m = ProcessManager::new(vec![site], vec![], vec![], ".".to_string());
    let plan = m.prepare_start("engine:site.example.com", &[], &free).unwrap().expect("launches");
    assert!(plan.port >= 5192);
}

#[test]
fn backend_env_specs_reach_the_process() {
    let mut site = project("site.example.com", "sleep 5");
    site.port = Some(5195);
    site.backend = Some(BackendSpec {
        path: ".".to_string(),
        command: Some("sleep 5".to_string()),
        port: Some(3010),
        deps: vec![],
        env: vec![
            EnvSpec {
                key: "MONGODB_URI".to_string(),
                value: None,
                file: vec![],
                default: Some("mongodb://127.0.0.1:27017/{{dbname}}".to_string()),
                if_running: None,
                else_value: None,
            },
            EnvSpec {
                key: "JWT_SECRET".to_string(),
                value: None,
                file: vec![],
                default: Some("{{dbname_upper}}_SECRET".to_string()),
                if_running: None,
                else_value: None,
            },
            EnvSpec {
                key: "SITE_URL".to_string(),
                value: Some("http://localhost:{{parent_port|3000}}".to_string()),
                file: vec![],
                default: None,
                if_running: None,
                else_value: None,
            },
        ],
        category: None,
    });
    let mut m = ProcessManager::new(vec![site], vec![], vec![], ".".to_string());
    let plan = m.prepare_start("engine:site.example.com", &[], &free).unwrap().expect("launches");
    assert_eq!(plan.port, 3010);
    assert_eq!(plan.env.get("MONGODB_URI").unwrap(), "mongodb://127.0.0.1:27017/SiteExampleCom");
    assert_eq!(plan.env.get("JWT_SECRET").unwrap(), "SITEEXAMPLECOM_SECRET");
    assert_eq!(plan.env.get("SITE_URL").unwrap(), "http://localhost:5195");
}

#[test]
fn deps_and_backend_cascade_start_before_project() {
    let mut site = project("site.example.com", "sleep 5");
    site.deps = vec!["plugin-manager".to_string()];
    site.backend = Some(BackendSpec {
        path: ".".to_string(),
        command: Some("sleep 5".to_string()),
        port: None,
        deps: vec![],
        env: vec![],
        category: None,
    });
    let m = ProcessManager::new(
        vec![site, project("plugin-manager", "sleep 5")],
        vec![],
        vec![],
        ".".to_string(),
    );
    assert_eq!(
        m.start_deps("site.example.com"),
        vec!["plugin-manager".to_string(), "engine:site.example.com".to_string()]
    );
}

#[test]
fn env_only_project_is_refused() {
    let mut p = project("env-holder", "x");
    p.env_only = true;
    let mut m = ProcessManager::new(vec![p], vec![], vec![], ".".to_string());
    let r = m.prepare_start("env-holder", &[], &free);
    assert!(r.is_err());
}

#[test]
fn port_held_by_running_process_is_refused() {
    let mut a = project("a", "sleep 5");
    a.port = Some(4000);
    let mut b = project("b", "sleep 5");
    b.port = Some(4000);
    let mut m = ProcessManager::new(vec![a, b], vec![], vec![], ".".to_string());
    assert!(m.prepare_start("a", &[], &free).unwrap().is_some());
    m.mark_running("a", 42);
    let err = match m.prepare_start("b", &[], &free) {
        Err(e) => e,
        Ok(_) => panic!("expected a refusal"),
    };
    assert!(err.contains("4000"));
}

#[test]
fn exit_outcomes_set_status() {
    let mut m = ProcessManager::new(vec![project("p", "x")], vec![], vec![], ".".to_string());
    m.prepare_start("p", &[], &free).unwrap();
    m.mark_running("p", 7);
    assert_eq!(status(&m, "p"), ProcessStatus::Running(7));
    m.process_exited("p", 7, ExitOutcome::Failure(Some(42)));
    assert_eq!(status(&m, "p"), ProcessStatus::Crashed("Exited with code 42".to_string()));
    m.prepare_start("p", &[], &free).unwrap();
    m.mark_running("p", 8);
    m.process_exited("p", 8, ExitOutcome::Success);
    assert_eq!(status(&m, "p"), ProcessStatus::Stopped);
}

#[test]
fn stop_resets_to_stopped() {
    let mut m = ProcessManager::new(vec![project("p", "x")], vec![], vec![], ".".to_string());
    m.prepare_start("p", &[], &free).unwrap();
    m.mark_running("p", 9);
    assert_eq!(m.stop_pids("p"), (None, Some(9)));
    m.finish_stop("p");
    assert_eq!(status(&m, "p"), ProcessStatus::Stopped);
}

#[test]
fn prod_mode_toggle_twice_restores() {
    let mut m = ProcessManager::new(vec![project("p", "x")], vec![], vec![], ".".to_string());
    assert!(!m.is_prod_mode("p"));
    assert!(m.toggle_prod_mode("p"));
    assert!(m.is_prod_mode("p"));
    assert!(!m.toggle_prod_mode("p"));
    assert!(!m.is_prod_mode("p"));
}

#[test]
fn host_mode_round_trip() {
    let mut m = ProcessManager::new(vec![project("p", "x")], vec![], vec![], ".".to_string());
    m.set_host_mode("p", true);
    assert!(m.is_host_mode("p"));
    m.set_host_mode("p", false);
    assert!(!m.is_host_mode("p"));
}

#[test]
fn log_buffer_keeps_newest_thousand_lines() {
    let mut m = ProcessManager::new(vec![project("p", "x")], vec![], vec![], ".".to_string());
    for i in 0..1005 {
        m.append_log("p", format!("line {}", i));
    }
    let logs = m.get_logs("p");
    assert_eq!(logs.len(), 1000);
    assert_eq!(logs[0], "line 5");
    assert_eq!(logs[999], "line 1004");
    assert_eq!(m.get_log_rev("p"), 1005);
}

#[test]
fn add_then_remove_project() {
    let mut m = ProcessManager::new(vec![], vec![], vec![], ".".to_string());
    m.add_project(project("n", "x"));
    assert!(m.status_of("n").is_some());
    m.remove_project("n");
    assert!(m.status_of("n").is_none());
    assert!(m.get_projects().is_empty());
}

#[test]
fn templates_collect_projects() {
    let mut m = ProcessManager::new(vec![project("a", "x")], vec![], vec![], ".".to_string());
    m.create_template("T".to_string());
    assert!(m.add_to_template("T", "a".to_string()).is_ok());
    assert_eq!(m.add_to_template("missing", "a".to_string()), Err("Template not found".to_string()));
    assert_eq!(m.run_template("T"), Ok(vec!["a".to_string()]));
    assert!(m.run_template("missing").is_err());
    m.delete_template("T");
    assert!(m.get_templates().is_empty());
    let _unused: Vec<Template> = m.get_templates();
}

#[test]
fn group_lookup_and_start_order() {
    let g = Group {
        id: "g".to_string(),
        name: "G".to_string(),
        projects: vec!["a".to_string()],
        infrastructure: vec!["db".to_string()],
    };
    let m = ProcessManager::new(vec![project("a", "x"), project("db", "x")], vec![], vec![g], ".".to_string());
    assert_eq!(m.find_group_for_project("a"), Some("g".to_string()));
    assert_eq!(m.find_group_for_project("db"), None);
    assert!(m.group_start_list("nope").is_err());
}

#[test]
fn launch_command_rewrites_for_host_mode() {
    assert_eq!(command_for_launch("npm run dev", false, false), ("npm run dev".to_string(), false));
    let (c, host) = command_for_launch("vite", true, false);
    assert!(c.contains("--host"));
    assert!(!host);
}

#[test]
fn stderr_and_exit_texts() {
    assert_eq!(exit_text(Some(3)), "Exited with code 3");
    assert_eq!(exit_text(None), "Exited with code -1");
    assert_eq!(stderr_line("boom"), "\x1b[31m[ERR] boom\x1b[0m");
    assert_eq!(stderr_line("Server running"), "Server running");
}

#[test]
fn available_port_walks_past_taken_ports() {
    assert_eq!(find_available_port(3000, &[3000, 3001], &free), Some(3002));
    assert_eq!(find_available_port(65535, &[65535], &free), None);
}

/// Runs a start of `id` the way the engine does, with each launch taking the
/// start decisions and then recording a spawn under the given pid.
fn run_start(m: &mut ProcessManager, id: &str, pid: u32) -> Vec<String> {
    let mut launched = Vec::new();
    let mut walk = StartWalk::new(id, m);
    let mut steps = 0;
    loop {
        steps += 1;
        assert!(steps < 100, "the walk must end");
        match walk.step(m) {
            WalkStep::Done => return launched,
            WalkStep::Launch(next) => {
                if let Ok(Some(_)) = m.prepare_start(&next, &[], &free) {
                    m.mark_running(&next, pid);
                }
                launched.push(next);
            }
            WalkStep::Descend | WalkStep::Skip => {}
        }
    }
}

#[test]
fn dependency_cycle_does_not_hang() {
    let mut a = project("cycle-a", "sleep 5");
    a.deps = vec!["cycle-b".to_string()];
    let mut b = project("cycle-b", "sleep 5");
    b.deps = vec!["cycle-a".to_string()];

    let mut manager = ProcessManager::new(vec![a, b], vec![], vec![], ".".to_string());
    // Must return promptly instead of recursing forever.
    let launched = run_start(&mut manager, "cycle-a", 11);
    assert_eq!(launched, vec!["cycle-a".to_string(), "cycle-b".to_string(), "cycle-a".to_string()]);

    let statuses = manager.get_statuses();
    assert!(statuses
        .iter()
        .any(|(p, s)| { p.id == "cycle-a" && matches!(s, ProcessStatus::Running(_)) }));

    manager.finish_stop("cycle-a");
    manager.finish_stop("cycle-b");
    assert_eq!(status(&manager, "cycle-a"), ProcessStatus::Stopped);
    assert_eq!(status(&manager, "cycle-b"), ProcessStatus::Stopped);
}

#[test]
fn stop_parent_stops_backend() {
    let mut site = project("site.example.com", "sleep 5");
    site.backend = Some(BackendSpec {
        path: ".".to_string(),
        command: Some("sleep 5".to_string()),
        port: None,
        deps: vec![],
        env: vec![],
        category: None,
    });

    let mut manager = ProcessManager::new(vec![site], vec![], vec![], ".".to_string());
    run_start(&mut manager, "site.example.com", 21);

    let statuses = manager.get_statuses();
    assert!(statuses.iter().any(|(p, s)| {
        p.id == "engine:site.example.com" && matches!(s, ProcessStatus::Running(_))
    }));

    // The engine is signalled before the project itself.
    assert_eq!(manager.stop_pids("site.example.com"), (Some(21), Some(21)));
    manager.finish_stop("site.example.com");

    let statuses = manager.get_statuses();
    assert!(statuses
        .iter()
        .any(|(p, s)| { p.id == "engine:site.example.com" && *s == ProcessStatus::Stopped }));
    assert!(statuses
        .iter()
        .any(|(p, s)| { p.id == "site.example.com" && *s == ProcessStatus::Stopped }));
}

#[test]
fn walk_launches_dependencies_first_and_skips_running_ones() {
    let mut app = project("app", "x");
    app.deps = vec!["db".to_string(), "cache".to_string()];
    let mut cache = project("cache", "x");
    cache.deps = vec!["db".to_string()];
    let mut m = ProcessManager::new(vec![app, cache, project("db", "x")], vec![], vec![], ".".to_string());
    let launched = run_start(&mut m, "app", 5);
    assert_eq!(launched, vec!["db".to_string(), "cache".to_string(), "app".to_string()]);
}

#[test]
fn host_mode_is_recorded_only_when_the_port_opened() {
    let mut p = project("web", "x");
    p.port = Some(4100);
    let mut m = ProcessManager::new(vec![p, project("cli", "x")], vec![], vec![], ".".to_string());
    assert_eq!(m.host_toggle_rule("web"), HostRule::Open(4100));
    assert_eq!(m.finish_host_toggle("web", Err("nft: permission denied".to_string())), Err("nft: permission denied".to_string()));
    assert!(!m.is_host_mode("web"));
    assert_eq!(m.finish_host_toggle("web", Ok(())), Ok(true));
    assert!(m.is_host_mode("web"));
    assert_eq!(m.host_toggle_rule("web"), HostRule::Close(4100));
    assert_eq!(m.finish_host_toggle("web", Ok(())), Ok(false));
    assert_eq!(m.host_toggle_rule("cli"), HostRule::Nothing);
}
