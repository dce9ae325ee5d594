use matrix::config::EnvSpec;
use matrix::engine::env::{derive_dbname, dotenv_lookup, resolve_env, resolve_template, EnvCtx, EnvVars};

fn ctx() -> EnvCtx {
    let mut resolved = EnvVars::new();
    resolved.insert("MONGODB_URI".to_string(), "mongodb://127.0.0.1:27017/X".to_string());
    EnvCtx {
        id: "my-site.example.com".to_string(),
        path: "/abs/site".to_string(),
        port: Some(3000),
        parent_port: Some(5173),
        backend_port: Some(3001),
        used_ports: vec![],
        resolved,
    }
}

fn free(_p: u16) -> bool {
    true
}

#[test]
fn derive_dbname_is_generic_title_case() {
    assert_eq!(derive_dbname("my-site.example.com"), "MySiteExampleCom");
    assert_eq!(derive_dbname("shop.example.net"), "ShopExampleNet");
    assert_eq!(derive_dbname("PosSystem"), "Possystem");
    assert_eq!(derive_dbname("a-b_c"), "ABC");
}

#[test]
fn resolve_basic_placeholders() {
    let c = ctx();
    assert_eq!(resolve_template("{{id}}", &c, &free), "my-site.example.com");
    assert_eq!(resolve_template("{{path}}", &c, &free), "/abs/site");
    assert_eq!(resolve_template("{{port}}", &c, &free), "3000");
    assert_eq!(resolve_template("{{parent_port}}", &c, &free), "5173");
    assert_eq!(resolve_template("{{backend_port}}", &c, &free), "3001");
}

#[test]
fn resolve_dbname_placeholders() {
    let c = ctx();
    assert_eq!(resolve_template("{{dbname}}", &c, &free), "MySiteExampleCom");
    assert_eq!(resolve_template("{{dbname_upper}}_SECRET", &c, &free), "MYSITEEXAMPLECOM_SECRET");
}

#[test]
fn parent_port_default_used_when_missing() {
    let mut c = ctx();
    c.parent_port = None;
    assert_eq!(
        resolve_template("http://localhost:{{parent_port|3000}}", &c, &free),
        "http://localhost:3000"
    );
    c.parent_port = Some(5173);
    assert_eq!(
        resolve_template("http://localhost:{{parent_port|3000}}", &c, &free),
        "http://localhost:5173"
    );
}

#[test]
fn port_plus_delta_allocates_next_free_port() {
    let c = ctx();
    assert_eq!(resolve_template("{{port+5}}", &c, &free), "3005");
    let mut c2 = ctx();
    c2.used_ports = vec![3005];
    assert_eq!(resolve_template("{{port+5}}", &c2, &free), "3006");
}

#[test]
fn env_reference_uses_earlier_resolved_entry() {
    let c = ctx();
    assert_eq!(resolve_template("{{env:MONGODB_URI}}", &c, &free), "mongodb://127.0.0.1:27017/X");
}

#[test]
fn unknown_placeholder_stays_literal() {
    let c = ctx();
    assert_eq!(resolve_template("a{{bogus}}b", &c, &free), "a{{bogus}}b");
    assert_eq!(resolve_template("no placeholders", &c, &free), "no placeholders");
}

#[test]
fn resolve_env_value_template_and_default() {
    let specs = vec![
        EnvSpec {
            key: "SITE_URL".to_string(),
            value: Some("http://localhost:{{parent_port|3000}}".to_string()),
            file: vec![],
            default: None,
            if_running: None,
            else_value: None,
        },
        EnvSpec {
            key: "JWT_SECRET".to_string(),
            value: None,
            file: vec![],
            default: Some("{{dbname_upper}}_SECRET".to_string()),
            if_running: None,
            else_value: None,
        },
    ];
    let out = resolve_env(&specs, &ctx(), &[], &[], &free);
    assert_eq!(out.get("SITE_URL").unwrap(), "http://localhost:5173");
    assert_eq!(out.get("JWT_SECRET").unwrap(), "MYSITEEXAMPLECOM_SECRET");
}

#[test]
fn resolve_env_file_fallback_reads_dotenv() {
    let specs = vec![EnvSpec {
        key: "MONGODB_URI".to_string(),
        value: None,
        file: vec![".env".to_string()],
        default: Some("should-not-fire".to_string()),
        if_running: None,
        else_value: None,
    }];
    let files = vec![(
        ".env".to_string(),
        "MONGODB_URI=mongodb://127.0.0.1:27017/FromFile\n# comment\n".to_string(),
    )];
    let out = resolve_env(&specs, &ctx(), &files, &[], &free);
    assert_eq!(out.get("MONGODB_URI").unwrap(), "mongodb://127.0.0.1:27017/FromFile");
}

#[test]
fn resolve_env_if_running_conditional() {
    let specs = vec![EnvSpec {
        key: "PLUGIN_MANAGER_URL".to_string(),
        value: Some("http://localhost:3002".to_string()),
        file: vec![],
        default: None,
        if_running: Some("plugin-manager".to_string()),
        else_value: Some("https://plugins.example.com/".to_string()),
    }];
    let running = vec!["plugin-manager".to_string()];
    let out = resolve_env(&specs, &ctx(), &[], &running, &free);
    assert_eq!(out.get("PLUGIN_MANAGER_URL").unwrap(), "http://localhost:3002");
    let out = resolve_env(&specs, &ctx(), &[], &[], &free);
    assert_eq!(out.get("PLUGIN_MANAGER_URL").unwrap(), "https://plugins.example.com/");
}

#[test]
fn dotenv_lookup_skips_comments_and_strips_quotes() {
    let text = "# KEY=no\n  KEY = \"yes\"\nOTHER=1\n";
    assert_eq!(dotenv_lookup(text, "KEY"), Some("yes".to_string()));
    assert_eq!(dotenv_lookup(text, "MISSING"), None);
}

#[test]
fn port_placeholder_skips_taken_ports() {
    let c = ctx();
    let taken = |p: u16| p != 3005 && p != 3006;
    assert_eq!(resolve_template("{{port+5}}", &c, &taken), "3007");
}

#[test]
fn missing_port_leaves_placeholder_literal() {
    let mut c = ctx();
    c.backend_port = None;
    assert_eq!(resolve_template("x{{backend_port}}y", &c, &free), "x{{backend_port}}y");
}
