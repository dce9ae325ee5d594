use matrix::common::{ActiveView, ToastEvent, ToastTone};
use matrix::detect::candidates::DetectCandidate;
use matrix::keys::KeyCode;
use matrix::ui_state::{
    clamp_detect_selection, detect_window, filter_new_candidates, guide_key, is_editing, normal_key, project_from_candidate, push_toast, route_key,
    sort_for_modal, update_view, Guide, GuideAction, KeyRoute, NormalAction, Screen,
};

fn screen() -> Screen {
    Screen {
        command_mode: false,
        detect_modal: false,
        onboarding: false,
        update_card: false,
        active: ActiveView::Dashboard,
        editing: false,
    }
}

fn cand(id: &str, name: &str, path: &str, category: &str) -> DetectCandidate {
    DetectCandidate {
        id: id.to_string(),
        name: name.to_string(),
        path: path.to_string(),
        command: String::new(),
        category: category.to_string(),
    }
}

fn toast(msg: &str) -> ToastEvent {
    ToastEvent { source: "tui".to_string(), message: msg.to_string(), tone: ToastTone::Info }
}

#[test]
fn update_card_takes_its_keys_first() {
    let mut s = screen();
    s.update_card = true;
    assert_eq!(route_key(s, KeyCode::Char('u')), KeyRoute::OpenReleasePage);
    assert_eq!(route_key(s, KeyCode::Esc), KeyRoute::DismissUpdate);
    assert_eq!(route_key(s, KeyCode::Enter), KeyRoute::DismissUpdate);
    assert_eq!(route_key(s, KeyCode::Char('c')), KeyRoute::Normal);
    s.command_mode = true;
    assert_eq!(route_key(s, KeyCode::Char('u')), KeyRoute::Palette);
}

#[test]
fn quit_only_outside_editors() {
    let mut s = screen();
    assert_eq!(route_key(s, KeyCode::Char('q')), KeyRoute::Quit);
    s.editing = true;
    assert_eq!(route_key(s, KeyCode::Char('q')), KeyRoute::Normal);
    s.editing = false;
    s.detect_modal = true;
    assert_eq!(route_key(s, KeyCode::Char('o')), KeyRoute::DetectSort);
    assert_eq!(route_key(s, KeyCode::Char('q')), KeyRoute::Detect);
    s.detect_modal = false;
    s.active = ActiveView::EnvEditor;
    assert_eq!(route_key(s, KeyCode::Char('q')), KeyRoute::EnvEditor);
}

#[test]
fn guide_keys_move_and_run() {
    let mut g = Guide { scroll: 0, selected: 0 };
    assert_eq!(guide_key(&mut g, KeyCode::Left), GuideAction::NoAction);
    assert_eq!(g.selected, 2);
    assert_eq!(guide_key(&mut g, KeyCode::Right), GuideAction::NoAction);
    assert_eq!(g.selected, 0);
    guide_key(&mut g, KeyCode::Up);
    assert_eq!(g.scroll, 0);
    guide_key(&mut g, KeyCode::Down);
    assert_eq!(g.scroll, 1);
    assert_eq!(guide_key(&mut g, KeyCode::Char('2')), GuideAction::Run(1));
    assert_eq!(guide_key(&mut g, KeyCode::Enter), GuideAction::Run(0));
    assert_eq!(guide_key(&mut g, KeyCode::Esc), GuideAction::Skip);
}

#[test]
fn normal_keys_cycle_views() {
    assert_eq!(normal_key(KeyCode::Right, None), NormalAction::SelectView(1));
    assert_eq!(normal_key(KeyCode::Left, Some(0)), NormalAction::SelectView(2));
    assert_eq!(normal_key(KeyCode::Char('l'), Some(2)), NormalAction::SelectView(0));
    assert_eq!(normal_key(KeyCode::Char(':'), None), NormalAction::OpenPalette);
    assert_eq!(normal_key(KeyCode::Char('x'), None), NormalAction::ViewKey);
}

#[test]
fn view_selection_and_editing() {
    let mut active = ActiveView::Dashboard;
    let mut previous = ActiveView::Dashboard;
    update_view(&mut active, &mut previous, 2);
    assert_eq!(active, ActiveView::Logs);
    assert_eq!(previous, ActiveView::Logs);
    update_view(&mut active, &mut previous, 9);
    assert_eq!(active, ActiveView::Logs);
    assert!(is_editing(ActiveView::Projects, true, false));
    assert!(!is_editing(ActiveView::Dashboard, true, true));
    assert!(is_editing(ActiveView::EnvEditor, false, false));
}

#[test]
fn toasts_keep_the_newest_four() {
    let mut ts = Vec::new();
    for i in 0..4 {
        assert_eq!(push_toast(&mut ts, toast(&format!("t{}", i))), 0);
    }
    assert_eq!(push_toast(&mut ts, toast("t4")), 1);
    assert_eq!(ts.len(), 4);
    assert_eq!(ts[0].message, "t1");
    assert_eq!(ts[3].message, "t4");
}

#[test]
fn candidates_become_projects() {
    let mut c = cand("web", "Web", "/srv/web", "Vite");
    let p = project_from_candidate(c.clone());
    assert_eq!(p.id, "web");
    assert_eq!(p.name.as_deref(), Some("Web"));
    assert_eq!(p.command, None);
    assert_eq!(p.category.as_deref(), Some("Vite"));
    c.command = "npm run dev".to_string();
    assert_eq!(project_from_candidate(c).command.as_deref(), Some("npm run dev"));
}

#[test]
fn known_candidates_are_filtered_out() {
    let cands = vec![cand("a", "A", "/a", "Rust"), cand("b", "B", "/b", "Go"), cand("c", "C", "/c", "Go")];
    let canon = vec!["/a".to_string(), "/b".to_string(), "/c".to_string()];
    let paths = vec!["/a".to_string()];
    let ids = vec!["c".to_string()];
    let r = filter_new_candidates(cands, &canon, &paths, &ids);
    assert_eq!(r.len(), 1);
    assert_eq!(r[0].id, "b");
}

#[test]
fn modal_sorts_stably_by_name_or_category() {
    let v = vec![cand("1", "beta", "/1", "Go"), cand("2", "Alpha", "/2", "Rust"), cand("3", "alpha", "/3", "Go")];
    let by_name = sort_for_modal(v.clone(), true);
    let ids: Vec<&str> = by_name.iter().map(|c| c.id.as_str()).collect();
    assert_eq!(ids, vec!["3", "2", "1"]);
    let by_cat = sort_for_modal(v, false);
    let ids: Vec<&str> = by_cat.iter().map(|c| c.id.as_str()).collect();
    assert_eq!(ids, vec!["3", "1", "2"]);
    assert_eq!(clamp_detect_selection(5, 3), 2);
    assert_eq!(clamp_detect_selection(5, 0), 0);
}

#[test]
fn detect_list_window_follows_the_selection() {
    assert_eq!(detect_window(40, 10, 0), (0, 10));
    assert_eq!(detect_window(40, 10, 12), (7, 17));
    assert_eq!(detect_window(40, 10, 38), (33, 40));
    assert_eq!(detect_window(3, 10, 2), (0, 3));
}
