//! The screen's own state: which view is shown, where a key goes, the
//! welcome guide, toasts, and the list of projects found on disk.
use crate::common::{ActiveView, ToastEvent};
use crate::config::{Project, ProjectView};
use crate::detect::candidates::{candidate_views, CandidateView, DetectCandidate};
use crate::keys::{KeyCode, KeyEvent};
use crate::text::{chars_of, seq_less, string_of};
use crate::unicode::{str_lower, to_lowercase};
use vstd::prelude::*;

verus! {

// ── views ──────────────────────────────────────────────────────────────────

/// The view of sidebar entry `index` (none past the third).
pub open spec fn view_at(index: usize) -> Option<ActiveView> {
    if index == 0 {
        Some(ActiveView::Dashboard)
    } else if index == 1 {
        Some(ActiveView::Projects)
    } else if index == 2 {
        Some(ActiveView::Logs)
    } else {
        None
    }
}

/// Show the view of sidebar entry `index`; it becomes the one to return to.
pub fn update_view(active: &mut ActiveView, previous: &mut ActiveView, index: usize)
    ensures
        *final(active) == match view_at(index) {
            Some(v) => v,
            None => *old(active),
        },
        *final(previous) == *final(active),
{
    match index {
        0 => *active = ActiveView::Dashboard,
        1 => *active = ActiveView::Projects,
        2 => *active = ActiveView::Logs,
        _ => {},
    }
    *previous = *active;
}

/// Whether the keys go to an editor: the port or category editor in the
/// projects view, or the env editor.
pub fn is_editing(active: ActiveView, editing_port: bool, editing_category: bool) -> (r: bool)
    ensures
        r == ((active == ActiveView::Projects && (editing_port || editing_category)) || active
            == ActiveView::EnvEditor),
{
    if active == ActiveView::Projects {
        return editing_port || editing_category;
    }
    active == ActiveView::EnvEditor
}

// ── where a key goes ───────────────────────────────────────────────────────

/// What is on screen that decides where a key goes.
#[derive(Clone, Copy, Debug, PartialEq, Eq, Structural)]
pub struct Screen {
    pub command_mode: bool,
    pub detect_modal: bool,
    pub onboarding: bool,
    /// An update notice is shown (available and not dismissed).
    pub update_card: bool,
    pub active: ActiveView,
    pub editing: bool,
}

/// Where a key goes.
#[derive(Clone, Copy, Debug, PartialEq, Eq, Structural)]
pub enum KeyRoute {
    /// `u` on the update notice: open the release page (the notice stays).
    OpenReleasePage,
    /// Esc or Enter on the update notice: dismiss it, and nothing else.
    DismissUpdate,
    Palette,
    /// `o` in the found-projects list: switch its order.
    DetectSort,
    Detect,
    Onboarding,
    EnvEditor,
    Quit,
    /// The normal keys of the views.
    Normal,
}

/// Where key `k` goes on screen `s`: the update notice takes `u`, Esc and
/// Enter first (when no palette, list or guide is open), then the open palette,
/// the found-projects list, the guide, the env editor; `q` quits when no
/// editor is open.
pub open spec fn key_route(s: Screen, k: KeyCode) -> KeyRoute {
    let card = !s.command_mode && !s.detect_modal && !s.onboarding && s.update_card;
    if card && k == KeyCode::Char('u') {
        KeyRoute::OpenReleasePage
    } else if card && (k == KeyCode::Esc || k == KeyCode::Enter) {
        KeyRoute::DismissUpdate
    } else if s.command_mode {
        KeyRoute::Palette
    } else if s.detect_modal {
        if k == KeyCode::Char('o') {
            KeyRoute::DetectSort
        } else {
            KeyRoute::Detect
        }
    } else if s.onboarding {
        KeyRoute::Onboarding
    } else if s.active == ActiveView::EnvEditor {
        KeyRoute::EnvEditor
    } else if !s.editing && k == KeyCode::Char('q') {
        KeyRoute::Quit
    } else {
        KeyRoute::Normal
    }
}

pub fn route_key(s: Screen, k: KeyCode) -> (r: KeyRoute)
    ensures
        r == key_route(s, k),
{
    let card = !s.command_mode && !s.detect_modal && !s.onboarding && s.update_card;
    if card && k == KeyCode::Char('u') {
        KeyRoute::OpenReleasePage
    } else if card && (k == KeyCode::Esc || k == KeyCode::Enter) {
        KeyRoute::DismissUpdate
    } else if s.command_mode {
        KeyRoute::Palette
    } else if s.detect_modal {
        if k == KeyCode::Char('o') {
            KeyRoute::DetectSort
        } else {
            KeyRoute::Detect
        }
    } else if s.onboarding {
        KeyRoute::Onboarding
    } else if s.active == ActiveView::EnvEditor {
        KeyRoute::EnvEditor
    } else if !s.editing && k == KeyCode::Char('q') {
        KeyRoute::Quit
    } else {
        KeyRoute::Normal
    }
}

// ── the welcome guide ──────────────────────────────────────────────────────

/// The actions offered by the guide: scan, add by hand, skip.
pub const ONBOARDING_ACTIONS: usize = 3;

/// The guide's scroll offset and highlighted action.
#[derive(Clone, Copy, Debug, PartialEq, Eq, Structural)]
pub struct Guide {
    pub scroll: usize,
    pub selected: usize,
}

/// What a key in the guide asks for.
#[derive(Clone, Copy, Debug, PartialEq, Eq, Structural)]
pub enum GuideAction {
    NoAction,
    /// Run action 0 (scan), 1 (add by hand) or another (skip).
    Run(usize),
    /// Close the guide.
    Skip,
}

/// A key in the guide: ↑/↓ scroll, ←/→ move the highlight (wrapping), 1/2/3
/// or Enter run an action, h or Esc close it.
pub open spec fn guide_step(g: Guide, k: KeyCode) -> (Guide, GuideAction) {
    match k {
        KeyCode::Char('j') | KeyCode::Down => (
            Guide {
                scroll: if g.scroll < usize::MAX {
                    (g.scroll + 1) as usize
                } else {
                    g.scroll
                },
                ..g
            },
            GuideAction::NoAction,
        ),
        KeyCode::Char('k') | KeyCode::Up => (
            Guide {
                scroll: if g.scroll > 0 {
                    (g.scroll - 1) as usize
                } else {
                    0
                },
                ..g
            },
            GuideAction::NoAction,
        ),
        KeyCode::Left => (Guide { selected: ((g.selected + 2) % 3) as usize, ..g }, GuideAction::NoAction),
        KeyCode::Right => (Guide { selected: ((g.selected + 1) % 3) as usize, ..g }, GuideAction::NoAction),
        KeyCode::Char('1') => (g, GuideAction::Run(0)),
        KeyCode::Char('2') => (g, GuideAction::Run(1)),
        KeyCode::Char('3') => (g, GuideAction::Run(2)),
        KeyCode::Enter => (
            g,
            GuideAction::Run(
                if g.selected <= 2 {
                    g.selected
                } else {
                    2
                },
            ),
        ),
        KeyCode::Char('h') | KeyCode::Esc => (g, GuideAction::Skip),
        _ => (g, GuideAction::NoAction),
    }
}

pub fn guide_key(g: &mut Guide, k: KeyCode) -> (r: GuideAction)
    ensures
        (*final(g), r) == guide_step(*old(g), k),
{
    match k {
        KeyCode::Char('j') | KeyCode::Down => {
            g.scroll = g.scroll.saturating_add(1);
            GuideAction::NoAction
        },
        KeyCode::Char('k') | KeyCode::Up => {
            g.scroll = g.scroll.saturating_sub(1);
            GuideAction::NoAction
        },
        KeyCode::Left => {
            g.selected = ((g.selected as u128 + 2) % 3) as usize;
            GuideAction::NoAction
        },
        KeyCode::Right => {
            g.selected = ((g.selected as u128 + 1) % 3) as usize;
            GuideAction::NoAction
        },
        KeyCode::Char('1') => GuideAction::Run(0),
        KeyCode::Char('2') => GuideAction::Run(1),
        KeyCode::Char('3') => GuideAction::Run(2),
        KeyCode::Enter => GuideAction::Run(
            if g.selected <= 2 {
                g.selected
            } else {
                2
            },
        ),
        KeyCode::Char('h') | KeyCode::Esc => GuideAction::Skip,
        _ => GuideAction::NoAction,
    }
}

// ── the normal keys ────────────────────────────────────────────────────────

/// What a normal key asks for.
#[derive(Clone, Copy, Debug, PartialEq, Eq, Structural)]
pub enum NormalAction {
    /// Open the command palette, empty.
    OpenPalette,
    ToggleSidebar,
    OpenDetect,
    /// Show the welcome guide from its start.
    ShowGuide,
    /// Select sidebar entry `n` and its view.
    SelectView(usize),
    /// The key belongs to the current view.
    ViewKey,
}

/// A normal key: `:` palette, `s` sidebar, `d` scan for projects, `h` the
/// guide, ←/→ (and `l`) cycle the three views from the selected sidebar
/// entry (the first when none is); other keys go to the view.
pub open spec fn normal_action(k: KeyCode, sidebar: Option<usize>) -> NormalAction {
    let cur: int = match sidebar {
        Some(i) => i as int,
        None => 0,
    };
    match k {
        KeyCode::Char(':') => NormalAction::OpenPalette,
        KeyCode::Char('s') => NormalAction::ToggleSidebar,
        KeyCode::Char('d') => NormalAction::OpenDetect,
        KeyCode::Char('h') => NormalAction::ShowGuide,
        KeyCode::Left => NormalAction::SelectView(((cur + 2) % 3) as usize),
        KeyCode::Right | KeyCode::Char('l') => NormalAction::SelectView(((cur + 1) % 3) as usize),
        _ => NormalAction::ViewKey,
    }
}

pub fn normal_key(k: KeyCode, sidebar: Option<usize>) -> (r: NormalAction)
    ensures
        r == normal_action(k, sidebar),
{
    let cur: u128 = match sidebar {
        Some(i) => i as u128,
        None => 0,
    };
    match k {
        KeyCode::Char(':') => NormalAction::OpenPalette,
        KeyCode::Char('s') => NormalAction::ToggleSidebar,
        KeyCode::Char('d') => NormalAction::OpenDetect,
        KeyCode::Char('h') => NormalAction::ShowGuide,
        KeyCode::Left => NormalAction::SelectView(((cur + 2) % 3) as usize),
        KeyCode::Right | KeyCode::Char('l') => NormalAction::SelectView(((cur + 1) % 3) as usize),
        _ => NormalAction::ViewKey,
    }
}

// ── toasts ─────────────────────────────────────────────────────────────────

/// The most toasts shown at once.
pub const MAX_TOASTS: usize = 4;

/// How many of the oldest toasts are dropped when there are `n`.
pub open spec fn toasts_dropped(n: nat) -> nat {
    if n > MAX_TOASTS {
        (n - MAX_TOASTS) as nat
    } else {
        0
    }
}

/// Add a toast, dropping the oldest beyond `MAX_TOASTS`; the number dropped
/// is returned (the caller drops as many of their timestamps).
pub fn push_toast(toasts: &mut Vec<ToastEvent>, event: ToastEvent) -> (dropped: usize)
    ensures
        dropped == toasts_dropped(old(toasts)@.len() + 1),
        final(toasts)@ == old(toasts)@.push(event).skip(dropped as int),
        final(toasts)@.len() <= MAX_TOASTS,
        final(toasts)@.last() == event,
{
    let ghost pushed = toasts@.push(event);
    toasts.push(event);
    let n = toasts.len();
    if n > MAX_TOASTS {
        let drop = n - MAX_TOASTS;
        let mut k: usize = 0;
        while k < drop
            invariant
                k <= drop,
                drop == n - MAX_TOASTS,
                n == pushed.len(),
                toasts@ == pushed.skip(k as int),
            decreases drop - k,
        {
            toasts.remove(0);
            assert(pushed.skip(k as int).drop_first() =~= pushed.skip(k + 1));
            k = k + 1;
        }
        drop
    } else {
        assert(pushed.skip(0) =~= pushed);
        0
    }
}

// ── found projects ─────────────────────────────────────────────────────────

/// The project a found candidate becomes: named after it, in its category,
/// launched by its command (none when the command is empty).
pub open spec fn candidate_project(c: CandidateView) -> ProjectView {
    ProjectView {
        id: c.id,
        name: Some(c.name),
        path: c.path,
        port: None,
        command: if c.command.len() == 0 {
            None
        } else {
            Some(c.command)
        },
        env_only: false,
        category: Some(c.category),
        deps: Seq::empty(),
        backend: None,
        env: Seq::empty(),
    }
}

pub fn project_from_candidate(c: DetectCandidate) -> (p: Project)
    ensures
        p@ == candidate_project(c@),
{
    let empty = chars_of(c.command.as_str()).len() == 0;
    let p = Project {
        id: c.id,
        name: Some(c.name),
        path: c.path,
        port: None,
        command: if empty {
            None
        } else {
            Some(c.command)
        },
        env_only: false,
        category: Some(c.category),
        deps: Vec::new(),
        backend: None,
        env: Vec::new(),
    };
    assert(crate::config::strs(p.deps@) =~= Seq::<Seq<char>>::empty());
    assert(crate::config::env_views(p.env@) =~= Seq::<crate::config::EnvSpecView>::empty());
    p
}

/// The candidates not yet in Matrix: neither their (canonical) path nor
/// their id is among the registered ones. `canon[i]` is the canonical path
/// of candidate `i`.
pub open spec fn new_candidates(
    cands: Seq<CandidateView>,
    canon: Seq<Seq<char>>,
    paths: Seq<Seq<char>>,
    ids: Seq<Seq<char>>,
) -> Seq<CandidateView>
    decreases cands.len(),
{
    if cands.len() == 0 {
        Seq::empty()
    } else {
        let n = cands.len() - 1;
        let r = new_candidates(cands.drop_last(), canon, paths, ids);
        if !paths.contains(canon[n]) && !ids.contains(cands[n].id) {
            r.push(cands[n])
        } else {
            r
        }
    }
}

/// A scan offers only new projects: every candidate it keeps was found,
/// and neither its canonical path nor its id is registered; every found
/// candidate that is new in both respects is kept.
pub proof fn law_found_projects_are_new(
    cands: Seq<CandidateView>,
    canon: Seq<Seq<char>>,
    paths: Seq<Seq<char>>,
    ids: Seq<Seq<char>>,
)
    requires
        canon.len() == cands.len(),
    ensures
        forall|k: int|
            0 <= k < new_candidates(cands, canon, paths, ids).len() ==> exists|j: int|
                0 <= j < cands.len() && #[trigger] new_candidates(cands, canon, paths, ids)[k]
                    == cands[j] && !paths.contains(canon[j]) && !ids.contains(cands[j].id),
        forall|j: int|
            0 <= j < cands.len() && !paths.contains(canon[j]) && !ids.contains(
                #[trigger] cands[j].id,
            ) ==> new_candidates(cands, canon, paths, ids).contains(cands[j]),
    decreases cands.len(),
{
    if cands.len() > 0 {
        let n = cands.len() - 1;
        let pre = cands.drop_last();
        law_found_projects_are_new(pre, canon.drop_last(), paths, ids);
        lemma_new_candidates_prefix(cands, canon, paths, ids);
        let r = new_candidates(cands, canon, paths, ids);
        let r0 = new_candidates(pre, canon.drop_last(), paths, ids);
        assert forall|k: int| 0 <= k < r.len() implies exists|j: int|
            0 <= j < cands.len() && #[trigger] r[k] == cands[j] && !paths.contains(canon[j])
                && !ids.contains(cands[j].id) by {
            if k < r0.len() {
                let j = choose|j: int|
                    0 <= j < pre.len() && #[trigger] r0[k] == pre[j] && !paths.contains(
                        canon.drop_last()[j],
                    ) && !ids.contains(pre[j].id);
                assert(r[k] == cands[j]);
            } else {
                assert(r[k] == cands[n]);
            }
        }
        assert forall|j: int|
            0 <= j < cands.len() && !paths.contains(canon[j]) && !ids.contains(
                #[trigger] cands[j].id,
            ) implies r.contains(cands[j]) by {
            if j < n {
                assert(pre[j] == cands[j]);
                assert(canon.drop_last()[j] == canon[j]);
                assert(r0.contains(pre[j]));
                let q = choose|q: int| 0 <= q < r0.len() && r0[q] == pre[j];
                assert(r[q] == cands[j]);
            } else {
                assert(r[r.len() - 1] == cands[j]);
            }
        }
    }
}

/// The candidates kept from a list do not depend on the canonical paths of
/// candidates beyond it.
proof fn lemma_new_candidates_prefix(
    cands: Seq<CandidateView>,
    canon: Seq<Seq<char>>,
    paths: Seq<Seq<char>>,
    ids: Seq<Seq<char>>,
)
    requires
        canon.len() == cands.len(),
        cands.len() > 0,
    ensures
        new_candidates(cands.drop_last(), canon, paths, ids) == new_candidates(
            cands.drop_last(),
            canon.drop_last(),
            paths,
            ids,
        ),
{
    lemma_new_candidates_canon(cands.drop_last(), canon, canon.drop_last(), paths, ids);
}

proof fn lemma_new_candidates_canon(
    cands: Seq<CandidateView>,
    c1: Seq<Seq<char>>,
    c2: Seq<Seq<char>>,
    paths: Seq<Seq<char>>,
    ids: Seq<Seq<char>>,
)
    requires
        cands.len() <= c1.len(),
        cands.len() <= c2.len(),
        forall|i: int| 0 <= i < cands.len() ==> c1[i] == c2[i],
    ensures
        new_candidates(cands, c1, paths, ids) == new_candidates(cands, c2, paths, ids),
    decreases cands.len(),
{
    if cands.len() > 0 {
        lemma_new_candidates_canon(cands.drop_last(), c1, c2, paths, ids);
    }
}

fn contains_string(v: &Vec<String>, s: &str) -> (r: bool)
    ensures
        r == crate::config::strs(v@).contains(s@),
{
    let sc = chars_of(s);
    let mut i: usize = 0;
    while i < v.len()
        invariant
            i <= v@.len(),
            sc@ == s@,
            forall|j: int| 0 <= j < i ==> (#[trigger] crate::config::strs(v@)[j]) != s@,
        decreases v@.len() - i,
    {
        if crate::text::seq_eq(chars_of(v[i].as_str()).as_slice(), sc.as_slice()) {
            assert(crate::config::strs(v@)[i as int] == s@);
            return true;
        }
        i = i + 1;
    }
    false
}

/// Keep the candidates not yet in Matrix.
pub fn filter_new_candidates(
    cands: Vec<DetectCandidate>,
    canon: &Vec<String>,
    paths: &Vec<String>,
    ids: &Vec<String>,
) -> (r: Vec<DetectCandidate>)
    requires
        canon@.len() == cands@.len(),
    ensures
        candidate_views(r@) == new_candidates(
            candidate_views(cands@),
            crate::config::strs(canon@),
            crate::config::strs(paths@),
            crate::config::strs(ids@),
        ),
{
    let ghost cv = candidate_views(cands@);
    let ghost kv = crate::config::strs(canon@);
    let ghost pv = crate::config::strs(paths@);
    let ghost iv = crate::config::strs(ids@);
    let mut r: Vec<DetectCandidate> = Vec::new();
    let mut i: usize = 0;
    while i < cands.len()
        invariant
            i <= cands@.len(),
            canon@.len() == cands@.len(),
            cv == candidate_views(cands@),
            kv == crate::config::strs(canon@),
            pv == crate::config::strs(paths@),
            iv == crate::config::strs(ids@),
            candidate_views(r@) == new_candidates(cv.take(i as int), kv, pv, iv),
        decreases cands@.len() - i,
    {
        proof {
            assert(cv.take(i + 1).drop_last() =~= cv.take(i as int));
            assert(cv.take(i + 1)[i as int] == cands@[i as int]@);
            assert(kv[i as int] == canon@[i as int]@);
        }
        if !contains_string(paths, canon[i].as_str()) && !contains_string(ids, cands[i].id.as_str()) {
            let ghost before = candidate_views(r@);
            r.push(cands[i].copy());
            assert(candidate_views(r@) =~= before.push(cands@[i as int]@));
        }
        i = i + 1;
    }
    assert(cv.take(cv.len() as int) =~= cv);
    r
}

/// `(a0, a1) < (b0, b1)`, comparing the first strings, then the second.
pub open spec fn pair_less(a: (Seq<char>, Seq<char>), b: (Seq<char>, Seq<char>)) -> bool {
    seq_less(a.0, b.0) || (a.0 == b.0 && seq_less(a.1, b.1))
}

/// The order of the found-projects list: by lowercased name then category,
/// or by category then lowercased name.
pub open spec fn modal_key(c: CandidateView, by_name: bool) -> (Seq<char>, Seq<char>) {
    if by_name {
        (str_lower(c.name), c.category)
    } else {
        (c.category, str_lower(c.name))
    }
}

/// `r` is `v` sorted by `modal_key`, stably (`r[i]` is `v[idx[i]]`).
pub open spec fn modal_sorted(v: Seq<CandidateView>, r: Seq<CandidateView>, idx: Seq<int>, by_name: bool) -> bool {
    &&& crate::detect::candidates::is_permutation(idx, v.len())
    &&& r.len() == v.len()
    &&& forall|i: int| 0 <= i < r.len() ==> #[trigger] r[i] == v[idx[i]]
    &&& forall|i: int, j: int|
        0 <= i < j < r.len() ==> !pair_less(modal_key(#[trigger] r[j], by_name), modal_key(#[trigger] r[i], by_name))
    &&& forall|i: int, j: int|
        0 <= i < j < r.len() && modal_key(#[trigger] r[i], by_name) == modal_key(#[trigger] r[j], by_name)
            ==> idx[i] < idx[j]
}

proof fn lemma_pair_total(a: (Seq<char>, Seq<char>), b: (Seq<char>, Seq<char>))
    ensures
        pair_less(a, b) || pair_less(b, a) || a == b,
{
    crate::text::lemma_seq_less_total(a.0, b.0);
    crate::text::lemma_seq_less_total(a.1, b.1);
}

proof fn lemma_pair_asym(a: (Seq<char>, Seq<char>), b: (Seq<char>, Seq<char>))
    requires
        pair_less(a, b),
    ensures
        !pair_less(b, a),
        a != b,
{
    if seq_less(a.0, b.0) {
        crate::text::lemma_seq_less_asym(a.0, b.0);
        crate::text::lemma_seq_less_irreflexive(a.0);
    } else {
        crate::text::lemma_seq_less_asym(a.1, b.1);
        crate::text::lemma_seq_less_irreflexive(a.1);
        crate::text::lemma_seq_less_irreflexive(a.0);
    }
}

proof fn lemma_pair_trans(a: (Seq<char>, Seq<char>), b: (Seq<char>, Seq<char>), c: (Seq<char>, Seq<char>))
    requires
        pair_less(a, b),
        pair_less(b, c),
    ensures
        pair_less(a, c),
{
    if seq_less(a.0, b.0) {
        if seq_less(b.0, c.0) {
            crate::text::lemma_seq_less_transitive(a.0, b.0, c.0);
        }
    } else {
        if seq_less(b.0, c.0) {
        } else {
            crate::text::lemma_seq_less_transitive(a.1, b.1, c.1);
        }
    }
}

proof fn lemma_insert_modal(v: Seq<CandidateView>, k: int, r: Seq<CandidateView>, idx: Seq<int>, p: int, by_name: bool)
    requires
        0 <= k < v.len(),
        modal_sorted(v.take(k), r, idx, by_name),
        0 <= p <= r.len(),
        forall|i: int| 0 <= i < p ==> !pair_less(modal_key(v[k], by_name), #[trigger] modal_key(r[i], by_name)),
        p < r.len() ==> pair_less(modal_key(v[k], by_name), modal_key(r[p], by_name)),
    ensures
        modal_sorted(v.take(k + 1), r.insert(p, v[k]), idx.insert(p, k), by_name),
{
    let x = v[k];
    let kx = modal_key(x, by_name);
    let r2 = r.insert(p, x);
    let idx2 = idx.insert(p, k);
    let vt = v.take(k + 1);
    assert forall|i: int| 0 <= i < r2.len() implies #[trigger] r2[i] == vt[idx2[i]] by {
        if i < p {
            assert(r2[i] == r[i] && idx2[i] == idx[i]);
        } else if i > p {
            assert(r2[i] == r[i - 1] && idx2[i] == idx[i - 1]);
        }
    }
    assert forall|i: int| 0 <= i < k + 1 implies 0 <= #[trigger] idx2[i] < k + 1 by {
        if i < p {
            assert(idx2[i] == idx[i]);
        } else if i > p {
            assert(idx2[i] == idx[i - 1]);
        }
    }
    assert forall|i: int, j: int| 0 <= i < j < k + 1 implies #[trigger] idx2[i] != #[trigger] idx2[j] by {
        if i != p && j != p {
            let a = if i < p {
                i
            } else {
                i - 1
            };
            let b = if j < p {
                j
            } else {
                j - 1
            };
            assert(idx2[i] == idx[a] && idx2[j] == idx[b]);
        } else if i == p {
            assert(idx2[j] == idx[j - 1]);
        } else {
            assert(idx2[i] == idx[i]);
        }
    }
    assert forall|i: int, j: int| 0 <= i < j < r2.len() implies !pair_less(
        modal_key(#[trigger] r2[j], by_name),
        modal_key(#[trigger] r2[i], by_name),
    ) && (modal_key(r2[i], by_name) == modal_key(r2[j], by_name) ==> idx2[i] < idx2[j]) by {
        if j < p {
            assert(r2[i] == r[i] && r2[j] == r[j]);
            assert(idx2[i] == idx[i] && idx2[j] == idx[j]);
        } else if j == p {
            assert(r2[i] == r[i]);
            assert(idx2[i] == idx[i]);
        } else if i > p {
            assert(r2[i] == r[i - 1] && r2[j] == r[j - 1]);
            assert(idx2[i] == idx[i - 1] && idx2[j] == idx[j - 1]);
        } else if i == p {
            assert(r2[j] == r[j - 1]);
            let kp = modal_key(r[p], by_name);
            let kj = modal_key(r[j - 1], by_name);
            if j - 1 > p {
                lemma_pair_total(kp, kj);
                if kp != kj {
                    if pair_less(kj, kp) {
                    } else {
                        lemma_pair_trans(kx, kp, kj);
                    }
                }
            }
            lemma_pair_asym(kx, kj);
        } else {
            assert(r2[i] == r[i] && r2[j] == r[j - 1]);
            assert(idx2[i] == idx[i] && idx2[j] == idx[j - 1]);
        }
    }
}

fn pair_less_exec(a: (&[char], &[char]), b: (&[char], &[char])) -> (r: bool)
    ensures
        r == pair_less((a.0@, a.1@), (b.0@, b.1@)),
{
    crate::text::less_chars(a.0, b.0) || (crate::text::seq_eq(a.0, b.0) && crate::text::less_chars(a.1, b.1))
}

/// The found projects in list order (stable).
pub fn sort_for_modal(v: Vec<DetectCandidate>, by_name: bool) -> (r: Vec<DetectCandidate>)
    ensures
        exists|idx: Seq<int>| modal_sorted(candidate_views(v@), candidate_views(r@), idx, by_name),
{
    let ghost vv = candidate_views(v@);
    let mut r: Vec<DetectCandidate> = Vec::new();
    let mut keys: Vec<(Vec<char>, Vec<char>)> = Vec::new();
    let ghost mut idx: Seq<int> = Seq::empty();
    let mut k: usize = 0;
    while k < v.len()
        invariant
            k <= v@.len(),
            vv == candidate_views(v@),
            r@.len() == k,
            keys@.len() == k,
            forall|i: int| 0 <= i < k ==> ((#[trigger] keys@[i]).0@, keys@[i].1@) == modal_key(r@[i]@, by_name),
            modal_sorted(vv.take(k as int), candidate_views(r@), idx, by_name),
        decreases v@.len() - k,
    {
        let x = v[k].copy();
        let lname = chars_of(to_lowercase(x.name.as_str()).as_str());
        let cat = chars_of(x.category.as_str());
        let xk: (Vec<char>, Vec<char>) = if by_name {
            (lname, cat)
        } else {
            (cat, lname)
        };
        assert((xk.0@, xk.1@) == modal_key(x@, by_name));
        let mut p: usize = 0;
        while p < r.len() && !pair_less_exec((xk.0.as_slice(), xk.1.as_slice()), (keys[p].0.as_slice(), keys[p].1.as_slice()))
            invariant
                p <= r@.len(),
                r@.len() == keys@.len(),
                forall|i: int| 0 <= i < r@.len() ==> ((#[trigger] keys@[i]).0@, keys@[i].1@) == modal_key(r@[i]@, by_name),
                forall|i: int| 0 <= i < p ==> !pair_less((xk.0@, xk.1@), #[trigger] modal_key(r@[i]@, by_name)),
            decreases r@.len() - p,
        {
            p = p + 1;
        }
        let ghost old_r = candidate_views(r@);
        let ghost old_keys = keys@;
        let ghost old_rr = r@;
        proof {
            lemma_insert_modal(vv, k as int, old_r, idx, p as int, by_name);
            idx = idx.insert(p as int, k as int);
        }
        r.insert(p, x);
        keys.insert(p, xk);
        proof {
            assert(candidate_views(r@) =~= old_r.insert(p as int, vv[k as int]));
            assert(vv.take(k + 1) =~= vv.take(k as int).push(vv[k as int]));
            assert forall|i: int| 0 <= i < k + 1 implies ((#[trigger] keys@[i]).0@, keys@[i].1@) == modal_key(r@[i]@, by_name) by {
                if i > p {
                    assert(keys@[i] == old_keys[i - 1]);
                    assert(r@[i] == old_rr[i - 1]);
                }
            }
        }
        k = k + 1;
    }
    assert(vv.take(v@.len() as int) =~= vv);
    r
}

/// The found-projects rows shown of `total` in `rows` rows, as the first
/// and one past the last: from half a screen above the selection (or the
/// top) on, as many as fit.
pub open spec fn detect_window_of(total: usize, rows: u16, selected: usize) -> (int, int) {
    let start: int = if selected >= rows / 2 {
        selected - rows / 2
    } else {
        0
    };
    (start, if start + rows <= total {
        start + rows
    } else {
        total as int
    })
}

pub fn detect_window(total: usize, rows: u16, selected: usize) -> (r: (usize, usize))
    ensures
        (r.0 as int, r.1 as int) == detect_window_of(total, rows, selected),
{
    let half = (rows / 2) as usize;
    let start = if selected >= half {
        selected - half
    } else {
        0
    };
    let end = if start <= total && (rows as usize) <= total - start {
        start + rows as usize
    } else {
        total
    };
    (start, end)
}

/// The window always shows the selected project (when there is one and
/// at least one row).
pub proof fn law_detect_window_shows_selection(total: usize, rows: u16, selected: usize)
    requires
        selected < total,
        rows > 0,
    ensures
        detect_window_of(total, rows, selected).0 <= selected < detect_window_of(total, rows, selected).1,
{
}

/// The list's highlight kept on an entry (0 when empty).
pub fn clamp_detect_selection(selected: usize, len: usize) -> (r: usize)
    ensures
        r == if len == 0 {
            0
        } else if selected <= len - 1 {
            selected
        } else {
            (len - 1) as usize
        },
{
    if len == 0 {
        0
    } else if selected <= len - 1 {
        selected
    } else {
        len - 1
    }
}

} // verus!
