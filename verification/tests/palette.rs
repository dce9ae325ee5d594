use matrix::keys::{KeyCode, KeyEvent};
use matrix::palette::{palette_geometry, palette_title, palette_window, id_suggestions, path_lookup, path_suggestions, suggestion_request, CommandLine, PaletteAction, SuggestionRequest};

fn key(code: KeyCode) -> KeyEvent {
    KeyEvent { code, ctrl: false }
}

fn open_line() -> CommandLine {
    let mut l = CommandLine::new();
    l.active = true;
    l
}

#[test]
fn typing_inserts_at_cursor() {
    let mut l = open_line();
    for c in "stat".chars() {
        assert!(matches!(l.handle_key(key(KeyCode::Char(c))), PaletteAction::Refresh));
    }
    assert_eq!(l.input, "stat");
    assert_eq!(l.cursor, 4);
    l.handle_key(key(KeyCode::Left));
    l.handle_key(key(KeyCode::Char('X')));
    assert_eq!(l.input, "staXt");
    assert_eq!(l.cursor, 4);
    l.handle_key(key(KeyCode::Delete));
    assert_eq!(l.input, "staX");
    l.handle_key(key(KeyCode::Backspace));
    assert_eq!(l.input, "sta");
    assert_eq!(l.cursor, 3);
}

#[test]
fn enter_executes_and_closes() {
    let mut l = open_line();
    for c in "status".chars() {
        l.handle_key(key(KeyCode::Char(c)));
    }
    match l.handle_key(key(KeyCode::Enter)) {
        PaletteAction::Execute(cmd) => assert_eq!(cmd, "status"),
        _ => panic!("expected execution"),
    }
    assert!(!l.active);
    assert_eq!(l.input, "");
}

#[test]
fn ctrl_backspace_deletes_a_word() {
    let mut l = open_line();
    for c in "start web".chars() {
        l.handle_key(key(KeyCode::Char(c)));
    }
    l.handle_key(KeyEvent { code: KeyCode::Backspace, ctrl: true });
    assert_eq!(l.input, "start ");
}

#[test]
fn tab_completes_selected_match() {
    let mut l = open_line();
    l.handle_key(key(KeyCode::Char('w')));
    l.update_matches();
    assert_eq!(l.matches.len(), 1);
    assert!(matches!(l.handle_key(key(KeyCode::Tab)), PaletteAction::Refresh));
    assert_eq!(l.input, "welcome");
    assert_eq!(l.cursor, 7);
}

#[test]
fn suggestions_take_enter_before_execution() {
    let mut l = open_line();
    for c in "env w".chars() {
        l.handle_key(key(KeyCode::Char(c)));
    }
    l.set_suggestions(Some(vec!["web".to_string(), "worker".to_string()]));
    l.handle_key(key(KeyCode::Down));
    assert_eq!(l.selected, 1);
    assert!(matches!(l.handle_key(key(KeyCode::Enter)), PaletteAction::NoAction));
    assert_eq!(l.input, "env worker ");
    assert!(l.active);
}

#[test]
fn escape_clears_suggestions_then_closes() {
    let mut l = open_line();
    l.set_suggestions(Some(vec!["a".to_string()]));
    l.handle_key(key(KeyCode::Esc));
    assert!(l.suggestions.is_empty());
    assert!(l.active);
    l.handle_key(key(KeyCode::Esc));
    assert!(!l.active);
}

#[test]
fn suggestion_requests_by_argument_position() {
    assert!(matches!(suggestion_request("env we"), SuggestionRequest::Ids(ref f) if f == "we"));
    assert!(matches!(suggestion_request("env "), SuggestionRequest::Ids(ref f) if f.is_empty()));
    assert!(matches!(suggestion_request("project web /sr"), SuggestionRequest::Paths(ref f) if f == "/sr"));
    assert!(matches!(suggestion_request("cd ~/co"), SuggestionRequest::Paths(ref f) if f == "~/co"));
    assert!(matches!(suggestion_request("status"), SuggestionRequest::Clear));
    assert!(matches!(suggestion_request(""), SuggestionRequest::Clear));
}

#[test]
fn id_suggestions_are_filtered_and_sorted() {
    let ids = vec!["worker".to_string(), "api".to_string(), "web".to_string()];
    assert_eq!(id_suggestions(&ids, "w"), vec!["web".to_string(), "worker".to_string()]);
    assert!(id_suggestions(&ids, "z").is_empty());
}

#[test]
fn path_lookup_splits_dir_and_prefix() {
    assert_eq!(path_lookup("/srv/we", None), ("/srv".to_string(), "we".to_string()));
    assert_eq!(path_lookup("/srv/", None), ("/srv/".to_string(), "".to_string()));
    assert_eq!(path_lookup("", None), (".".to_string(), "".to_string()));
    assert_eq!(path_lookup("~/co", Some("/home/u")), ("/home/u".to_string(), "co".to_string()));
}

#[test]
fn path_suggestions_are_full_sorted_dirs() {
    let names = vec!["code".to_string(), "cache".to_string(), "docs".to_string()];
    assert_eq!(
        path_suggestions("/home/u", &names, "c"),
        vec!["/home/u/cache/".to_string(), "/home/u/code/".to_string()]
    );
}

#[test]
fn palette_window_keeps_the_selection_in_view() {
    assert_eq!(palette_window(0, 14, 0), (0, 0));
    assert_eq!(palette_window(5, 14, 3), (0, 5));
    assert_eq!(palette_window(30, 14, 0), (0, 14));
    assert_eq!(palette_window(30, 14, 20), (13, 27));
    assert_eq!(palette_window(30, 14, 29), (16, 30));
}

#[test]
fn palette_geometry_depends_on_the_terminal_only() {
    assert_eq!(palette_geometry(0, 0, 120, 40), (20, 12, 80, 18, 14));
    assert_eq!(palette_geometry(0, 0, 40, 12), (0, 3, 48, 7, 3));
    assert_eq!(palette_title("", false), " Commands ");
    assert_eq!(palette_title("st", false), " Commands: \"st\" ");
    assert_eq!(palette_title("env web", true), " Project IDs ");
    assert_eq!(palette_title("add ~/", true), " Paths ");
}
