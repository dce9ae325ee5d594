use matrix::common::strip_ansi;
use matrix::features::env::{EnvAction, EnvController, EnvModel};
use matrix::features::logs::{
    copy_message, url_segments, get_base_style, process_logs, prod_mode_message, restart_message, LogColor,
    LogFrame, LogsModel, SharedLogCache,
};
use matrix::features::projects::ProjectsModel;
use matrix::keys::{KeyCode, KeyEvent};
use matrix::url::{find_urls, url_at_column};

fn key(code: KeyCode) -> KeyEvent {
    KeyEvent { code, ctrl: false }
}

#[test]
fn env_editor_types_splits_and_saves() {
    let mut m = EnvModel::new();
    m.load("web".to_string(), "/srv/web/.env".to_string(), "A=1\nB=2".to_string());
    assert_eq!(m.lines, vec!["A=1".to_string(), "B=2".to_string()]);
    EnvController::handle_key(key(KeyCode::Right), &mut m);
    EnvController::handle_key(key(KeyCode::Char('X')), &mut m);
    assert_eq!(m.lines[0], "AX=1");
    EnvController::handle_key(key(KeyCode::Enter), &mut m);
    assert_eq!(m.lines, vec!["AX".to_string(), "=1".to_string(), "B=2".to_string()]);
    assert_eq!((m.cursor_y, m.cursor_x), (1, 0));
    EnvController::handle_key(key(KeyCode::Backspace), &mut m);
    assert_eq!(m.lines, vec!["AX=1".to_string(), "B=2".to_string()]);
    match EnvController::handle_key(KeyEvent { code: KeyCode::Char('s'), ctrl: true }, &mut m) {
        EnvAction::Save { path, content } => {
            assert_eq!(path, "/srv/web/.env");
            assert_eq!(content, "AX=1\nB=2");
        }
        _ => panic!("expected a save request"),
    }
    assert!(matches!(EnvController::handle_key(key(KeyCode::Esc), &mut m), EnvAction::Exit));
}

#[test]
fn empty_env_file_loads_one_empty_line() {
    let mut m = EnvModel::new();
    m.load("p".to_string(), "f".to_string(), String::new());
    assert_eq!(m.lines, vec![String::new()]);
    assert_eq!(m.get_content(), "");
}

#[test]
fn port_editor_parses_or_rejects() {
    let mut m = ProjectsModel::new();
    m.start_editing_port(Some(3000));
    assert_eq!(m.editing_port.as_deref(), Some("3000"));
    assert_eq!(m.stop_editing_port(), Ok(Some(3000)));
    m.start_editing_port(None);
    assert_eq!(m.stop_editing_port(), Ok(None));
    m.editing_port = Some("70000".to_string());
    assert_eq!(m.stop_editing_port(), Err("Invalid port number".to_string()));
    assert!(m.editing_port.is_none());
}

#[test]
fn project_selection_wraps() {
    let mut m = ProjectsModel::new();
    m.prev(3);
    assert_eq!(m.selected_index, 2);
    m.next(3);
    assert_eq!(m.selected_index, 0);
    m.next(0);
    assert_eq!(m.selected_index, 0);
}

#[test]
fn group_expansion_toggles() {
    let mut m = ProjectsModel::new();
    let before = m.is_group_expanded("g");
    m.toggle_group("g");
    assert_eq!(m.is_group_expanded("g"), !before);
    m.toggle_group("g");
    assert_eq!(m.is_group_expanded("g"), before);
}

#[test]
fn log_lines_are_coloured_by_content() {
    assert_eq!(get_base_style("Compiling foo", "Compiling foo"), LogColor::DarkGray);
    assert_eq!(get_base_style("ERROR: bad", "ERROR: bad"), LogColor::Red);
    assert_eq!(get_base_style("all done", "all done"), LogColor::Green);
    assert_eq!(get_base_style("Warning: x", "Warning: x"), LogColor::Yellow);
    assert_eq!(get_base_style("INFO x", "INFO x"), LogColor::Cyan);
    assert_eq!(get_base_style("plain", "\x1b[31m[ERR] plain"), LogColor::Red);
    assert_eq!(get_base_style("plain", "plain"), LogColor::White);
}

#[test]
fn log_tab_messages() {
    assert_eq!(restart_message("web", &Ok(())), "Restarted web");
    assert_eq!(restart_message("web", &Err("x".to_string())), "Failed to restart web: x");
    assert_eq!(prod_mode_message("Web", true, &Ok(())), "Switched to PROD mode for Web (restarting…)");
    assert_eq!(prod_mode_message("Web", false, &Err("e".to_string())), "Mode DEV but restart failed: e");
    assert_eq!(copy_message(&None), "Clipboard copy failed: no clipboard backend available");
    assert_eq!(copy_message(&Some(Ok(()))), "Selected logs copied to clipboard");
}

#[test]
fn ansi_sequences_are_stripped() {
    assert_eq!(strip_ansi("\x1b[31mred\x1b[0m text"), "red text");
    assert_eq!(strip_ansi("plain"), "plain");
    assert_eq!(strip_ansi(&strip_ansi("\x1b[1mB\x1b[0m")), "B");
}

#[test]
fn urls_are_found_with_byte_columns() {
    let urls = find_urls("see http://localhost:5173/ and https://x.dev)");
    assert_eq!(urls.len(), 2);
    assert_eq!(urls[0].url, "http://localhost:5173/");
    assert_eq!((urls[0].start, urls[0].end), (4, 26));
    assert_eq!(urls[1].url, "https://x.dev");
    assert_eq!(url_at_column(&urls, 10).map(|u| u.url.as_str()), Some("http://localhost:5173/"));
    assert!(url_at_column(&urls, 27).is_none());
    assert!(find_urls("no links here").is_empty());
}

#[test]
fn log_frame_is_raw_then_stale_then_processed() {
    let mut model = LogsModel::new();
    let mut cache = SharedLogCache::new();
    let logs = vec!["hello".to_string(), "see http://a.io now".to_string(), "x".to_string()];
    let (frame, ask) = model.plan_frame("p1", 80, 10, logs.len(), 1, &cache);
    assert_eq!(frame, LogFrame::Raw);
    assert!(ask);
    assert_eq!(model.last_line_map, vec![0, 1, 2]);
    let (frame, ask) = model.plan_frame("p1", 80, 10, logs.len(), 1, &cache);
    assert_eq!(frame, LogFrame::Stale);
    assert!(!ask);
    cache.begin_processing(1);
    let (lines, map) = process_logs(&logs, 80);
    assert_eq!(map, vec![0, 1, 2]);
    cache.store("p1".to_string(), 80, logs.len(), 1, lines, map);
    let (frame, ask) = model.plan_frame("p1", 80, 10, logs.len(), 1, &cache);
    assert_eq!(frame, LogFrame::Processed);
    assert!(!ask);
    assert_eq!(model.cache_wrapped.len(), 3);
    assert_eq!(model.cache_wrapped[1].1, "see http://a.io now");
    assert_eq!(model.cache_urls[1].1.len(), 1);
    assert_eq!(model.cache_urls[1].1[0].url, "http://a.io");
    // A new revision asks the processor again and shows the old wrapped lines.
    let (frame, ask) = model.plan_frame("p1", 80, 10, 4, 2, &cache);
    assert_eq!(frame, LogFrame::Stale);
    assert!(ask);
    assert_eq!(model.req_rev, 2);
}

#[test]
fn env_cursor_moves_stay_in_the_text() {
    let mut m = EnvModel::new();
    m.load("p".to_string(), "f".to_string(), "LONG=1\nA".to_string());
    EnvController::handle_key(key(KeyCode::End), &mut m);
    assert_eq!((m.cursor_y, m.cursor_x), (0, 0));
    for _ in 0..6 {
        EnvController::handle_key(key(KeyCode::Right), &mut m);
    }
    assert_eq!((m.cursor_y, m.cursor_x), (0, 6));
    EnvController::handle_key(key(KeyCode::Right), &mut m);
    assert_eq!((m.cursor_y, m.cursor_x), (1, 0));
    EnvController::handle_key(key(KeyCode::Right), &mut m);
    EnvController::handle_key(key(KeyCode::Right), &mut m);
    assert_eq!((m.cursor_y, m.cursor_x), (1, 1));
    EnvController::handle_key(key(KeyCode::Down), &mut m);
    assert_eq!((m.cursor_y, m.cursor_x), (1, 1));
    EnvController::handle_key(key(KeyCode::Up), &mut m);
    assert_eq!((m.cursor_y, m.cursor_x), (0, 1));
    EnvController::handle_key(key(KeyCode::Left), &mut m);
    EnvController::handle_key(key(KeyCode::Left), &mut m);
    assert_eq!((m.cursor_y, m.cursor_x), (0, 0));
    assert_eq!(m.get_content(), "LONG=1\nA");
}

#[test]
fn backspace_undoes_typing_and_enter() {
    let mut m = EnvModel::new();
    m.load("p".to_string(), "f".to_string(), "AB\nC".to_string());
    EnvController::handle_key(key(KeyCode::Right), &mut m);
    EnvController::handle_key(key(KeyCode::Char('Z')), &mut m);
    assert_eq!(m.lines[0], "AZB");
    EnvController::handle_key(key(KeyCode::Backspace), &mut m);
    assert_eq!(m.lines, vec!["AB".to_string(), "C".to_string()]);
    assert_eq!((m.cursor_y, m.cursor_x), (0, 1));
    EnvController::handle_key(key(KeyCode::Enter), &mut m);
    assert_eq!(m.lines, vec!["A".to_string(), "B".to_string(), "C".to_string()]);
    EnvController::handle_key(key(KeyCode::Backspace), &mut m);
    assert_eq!(m.lines, vec!["AB".to_string(), "C".to_string()]);
    assert_eq!((m.cursor_y, m.cursor_x), (0, 1));
}

#[test]
fn shown_line_is_cut_around_its_urls() {
    let line = "see http://a.io and https://b.dev/x.";
    let urls = find_urls(line);
    assert_eq!(urls.len(), 2);
    let segs = url_segments(line, &urls);
    assert_eq!(
        segs,
        vec![
            ("see ".to_string(), false),
            ("http://a.io".to_string(), true),
            (" and ".to_string(), false),
            ("https://b.dev/x".to_string(), true),
            (".".to_string(), false),
        ]
    );
    assert_eq!(url_segments("plain", &[]), vec![("plain".to_string(), false)]);
    assert_eq!(url_segments("", &[]), Vec::<(String, bool)>::new());
}

#[test]
fn loaded_env_text_reads_back() {
    let mut m = EnvModel::new();
    m.load("p".to_string(), "f".to_string(), "A=1\nB=2".to_string());
    assert_eq!(m.get_content(), "A=1\nB=2");
    m.load("p".to_string(), "f".to_string(), "A=1\nB=2\n".to_string());
    assert_eq!(m.get_content(), "A=1\nB=2");
    m.load("p".to_string(), "f".to_string(), String::new());
    assert_eq!(m.get_content(), "");
}

#[test]
fn wrapped_rows_fit_and_rejoin() {
    let logs = vec!["the quick brown fox jumps over".to_string(), "abcdefghijklmnopqrstuvwxyz".to_string()];
    let (rows, map) = process_logs(&logs, 8);
    for r in &rows {
        assert!(r.content.len() <= 8);
    }
    let first: String = rows.iter().filter(|r| r.orig_idx == 0).map(|r| r.content.as_str()).collect();
    let second: String = rows.iter().filter(|r| r.orig_idx == 1).map(|r| r.content.as_str()).collect();
    assert_eq!(first, logs[0]);
    assert_eq!(second, logs[1]);
    assert_eq!(map.len(), rows.len());
}
