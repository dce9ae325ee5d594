//! Projects tab: selection, group expansion, and the port/category editors.
use crate::config::{strs, Group, GroupView, Project, ProjectView};
use crate::engine::{engine_id, ProcessManager, ProcessStatus, StatusView};
use crate::keys::KeyCode;
use crate::num::{decimal, parse_unsigned, push_decimal};
use crate::text::{chars_of, concat2, concat3, concat4, copy_str, starts_with, string_of};
use vstd::prelude::*;

verus! {

pub struct ProjectsModel {
    pub selected_index: usize,
    pub editing_port: Option<String>,
    pub editing_category: Option<String>,
    /// Ids of the groups shown expanded.
    pub expanded_groups: Vec<String>,
}

pub open spec fn ids_of(v: Seq<String>) -> Seq<Seq<char>> {
    v.map_values(|s: String| s@)
}

/// `v` without the entries equal to `x`.
pub open spec fn without(v: Seq<Seq<char>>, x: Seq<char>) -> Seq<Seq<char>>
    decreases v.len(),
{
    if v.len() == 0 {
        v
    } else if v.last() == x {
        without(v.drop_last(), x)
    } else {
        without(v.drop_last(), x).push(v.last())
    }
}

/// The expanded groups after toggling `g`: without it when it was
/// expanded, else with it added at the end.
pub open spec fn group_toggled(before: Seq<Seq<char>>, after: Seq<Seq<char>>, g: Seq<char>) -> bool {
    &&& before.contains(g) ==> after == without(before, g)
    &&& !before.contains(g) ==> after == before.push(g)
}

/// Down then Up (and Up then Down) over `count` rows comes back to the row
/// it started on.
pub proof fn law_prev_undoes_next(i: int, count: int)
    requires
        0 <= i < count,
    ensures
        (((i + 1) % count) + count - 1) % count == i,
        (((i + count - 1) % count) + 1) % count == i,
{
    if i + 1 < count {
        assert((i + 1) % count == i + 1) by (nonlinear_arith)
            requires 0 <= i + 1 < count;
        assert((i + count) % count == i) by (nonlinear_arith)
            requires 0 <= i < count;
    } else {
        assert((i + 1) % count == 0) by (nonlinear_arith)
            requires i + 1 == count, count > 0;
        assert((count - 1) % count == i) by (nonlinear_arith)
            requires i == count - 1, count > 0;
    }
    if i > 0 {
        assert((i + count - 1) % count == i - 1) by (nonlinear_arith)
            requires 0 < i < count;
        assert(i % count == i) by (nonlinear_arith)
            requires 0 <= i < count;
    } else {
        assert((count - 1) % count == count - 1) by (nonlinear_arith)
            requires count > 0;
        assert(count % count == 0) by (nonlinear_arith)
            requires count > 0;
    }
}

/// Which ids stay after removing `x`: every other id that was there.
proof fn lemma_without_contains(v: Seq<Seq<char>>, x: Seq<char>, h: Seq<char>)
    ensures
        without(v, x).contains(h) == (v.contains(h) && h != x),
    decreases v.len(),
{
    if v.len() > 0 {
        let r = v.drop_last();
        lemma_without_contains(r, x, h);
        assert(v =~= r.push(v.last()));
        assert(v.contains(h) == (r.contains(h) || v.last() == h)) by {
            if v.contains(h) && v.last() != h {
                let i = choose|i: int| 0 <= i < v.len() && v[i] == h;
                assert(r[i] == h);
            }
            if r.contains(h) {
                let i = choose|i: int| 0 <= i < r.len() && r[i] == h;
                assert(v[i] == h);
            }
        }
        if v.last() != x {
            let w = without(r, x);
            assert(w.push(v.last()).contains(h) == (w.contains(h) || v.last() == h)) by {
                if w.push(v.last()).contains(h) && v.last() != h {
                    let i = choose|i: int| 0 <= i < w.push(v.last()).len() && w.push(v.last())[i] == h;
                    assert(w[i] == h);
                }
                if w.contains(h) {
                    let i = choose|i: int| 0 <= i < w.len() && w[i] == h;
                    assert(w.push(v.last())[i] == h);
                }
                if v.last() == h {
                    assert(w.push(v.last())[w.len() as int] == h);
                }
            }
        }
    }
}

/// Toggling a group twice leaves the same groups expanded as before.
pub proof fn law_toggle_group_twice_restores(
    a: Seq<Seq<char>>,
    b: Seq<Seq<char>>,
    c: Seq<Seq<char>>,
    g: Seq<char>,
    h: Seq<char>,
)
    requires
        group_toggled(a, b, g),
        group_toggled(b, c, g),
    ensures
        c.contains(h) == a.contains(h),
{
    lemma_without_contains(a, g, h);
    lemma_without_contains(a, g, g);
    lemma_without_contains(a.push(g), g, h);
    if a.contains(g) {
        assert(c == b.push(g));
        assert(c.contains(h) == (b.contains(h) || h == g)) by {
            if h == g {
                assert(c[c.len() - 1] == g);
            }
            if c.contains(h) && h != g {
                let i = choose|i: int| 0 <= i < c.len() && c[i] == h;
                assert(b[i] == h);
            }
            if b.contains(h) {
                let i = choose|i: int| 0 <= i < b.len() && b[i] == h;
                assert(c[i] == h);
            }
        }
    } else {
        assert(b == a.push(g));
        assert(b.contains(g)) by {
            assert(b[b.len() - 1] == g);
        }
        assert(a.push(g).contains(h) == (a.contains(h) || h == g)) by {
            if a.push(g).contains(h) && h != g {
                let i = choose|i: int| 0 <= i < a.push(g).len() && a.push(g)[i] == h;
                assert(a[i] == h);
            }
            if a.contains(h) {
                let i = choose|i: int| 0 <= i < a.len() && a[i] == h;
                assert(a.push(g)[i] == h);
            }
        }
    }
}

/// Whether the string list holds `id`.
pub fn contains_id(v: &Vec<String>, id: &str) -> (r: bool)
    ensures
        r == ids_of(v@).contains(id@),
{
    let mut i: usize = 0;
    while i < v.len()
        invariant
            i <= v@.len(),
            forall|j: int| 0 <= j < i ==> v@[j]@ != id@,
        decreases v@.len() - i,
    {
        if crate::text::seq_eq(chars_of(v[i].as_str()).as_slice(), chars_of(id).as_slice()) {
            assert(ids_of(v@)[i as int] == id@);
            return true;
        }
        i = i + 1;
    }
    proof {
        if ids_of(v@).contains(id@) {
            let j = choose|j: int| 0 <= j < ids_of(v@).len() && ids_of(v@)[j] == id@;
            assert(v@[j]@ == id@);
        }
    }
    false
}

/// What an edited port text means: empty = no port, otherwise a `u16`.
pub open spec fn port_edit_result(s: Seq<char>) -> Result<Option<u16>, Seq<char>> {
    if s.len() == 0 {
        Ok(None)
    } else {
        match parse_unsigned(s, u16::MAX as nat) {
            Some(p) => Ok(Some(p as u16)),
            None => Err("Invalid port number"@),
        }
    }
}

impl ProjectsModel {
    pub fn new() -> (m: Self)
        ensures
            m.selected_index == 0,
            m.editing_port.is_none(),
            m.editing_category.is_none(),
            m.expanded_groups@.len() == 0,
    {
        Self {
            selected_index: 0,
            editing_port: None,
            editing_category: None,
            expanded_groups: Vec::new(),
        }
    }

    /// Select the next of `count` rows, wrapping around.
    pub fn next(&mut self, count: usize)
        ensures
            final(self).selected_index == (if count > 0 {
                ((old(self).selected_index + 1) % (count as int)) as usize
            } else {
                old(self).selected_index
            }),
            final(self).editing_port == old(self).editing_port,
            final(self).editing_category == old(self).editing_category,
            final(self).expanded_groups == old(self).expanded_groups,
    {
        if count > 0 {
            self.selected_index = ((self.selected_index as u128 + 1) % (count as u128)) as usize;
        }
    }

    /// Select the previous of `count` rows, wrapping around.
    pub fn prev(&mut self, count: usize)
        ensures
            final(self).selected_index == (if count > 0 {
                ((old(self).selected_index + count - 1) % (count as int)) as usize
            } else {
                old(self).selected_index
            }),
            final(self).editing_port == old(self).editing_port,
            final(self).editing_category == old(self).editing_category,
            final(self).expanded_groups == old(self).expanded_groups,
    {
        if count > 0 {
            self.selected_index = ((self.selected_index as u128 + count as u128 - 1) % (count as u128)) as usize;
        }
    }

    /// Expand a collapsed group; collapse an expanded one.
    pub fn toggle_group(&mut self, group_id: &str)
        ensures
            group_toggled(ids_of(old(self).expanded_groups@), ids_of(final(self).expanded_groups@), group_id@),
            final(self).selected_index == old(self).selected_index,
            final(self).editing_port == old(self).editing_port,
            final(self).editing_category == old(self).editing_category,
    {
        if contains_id(&self.expanded_groups, group_id) {
            let mut kept: Vec<String> = Vec::new();
            let mut i: usize = 0;
            let ghost src = ids_of(self.expanded_groups@);
            let gid = chars_of(group_id);
            while i < self.expanded_groups.len()
                invariant
                    i <= self.expanded_groups@.len(),
                    src == ids_of(self.expanded_groups@),
                    gid@ == group_id@,
                    ids_of(kept@) == without(src.take(i as int), group_id@),
                decreases self.expanded_groups@.len() - i,
            {
                let g = self.expanded_groups[i].clone();
                let same = crate::text::seq_eq(chars_of(g.as_str()).as_slice(), gid.as_slice());
                let ghost before = ids_of(kept@);
                proof {
                    assert(src.take(i + 1).drop_last() =~= src.take(i as int));
                }
                if !same {
                    kept.push(g);
                    assert(ids_of(kept@) =~= before.push(src[i as int]));
                }
                i = i + 1;
            }
            assert(src.take(src.len() as int) =~= src);
            self.expanded_groups = kept;
            assert(ids_of(self.expanded_groups@) == without(src, group_id@));
        } else {
            let ghost before = ids_of(self.expanded_groups@);
            self.expanded_groups.push(crate::text::copy_str(group_id));
            assert(ids_of(self.expanded_groups@) =~= before.push(group_id@));
        }
    }

    pub fn is_group_expanded(&self, group_id: &str) -> (r: bool)
        ensures
            r == ids_of(self.expanded_groups@).contains(group_id@),
    {
        contains_id(&self.expanded_groups, group_id)
    }

    /// Open the port editor with the current port as text (empty when none).
    pub fn start_editing_port(&mut self, current_port: Option<u16>)
        ensures
            final(self).editing_port matches Some(s) && s@ == match current_port {
                Some(p) => decimal(p as nat),
                None => Seq::<char>::empty(),
            },
            final(self).editing_category.is_none(),
            final(self).selected_index == old(self).selected_index,
            final(self).expanded_groups == old(self).expanded_groups,
    {
        let text = match current_port {
            Some(p) => {
                let mut v: Vec<char> = Vec::new();
                push_decimal(&mut v, p as u64);
                assert(Seq::<char>::empty() + decimal(p as nat) =~= decimal(p as nat));
                string_of(v.as_slice())
            },
            None => String::new(),
        };
        self.editing_port = Some(text);
        self.editing_category = None;
    }

    /// Close the port editor: empty text clears the port, a `u16` sets it,
    /// anything else is an error.
    pub fn stop_editing_port(&mut self) -> (r: Result<Option<u16>, String>)
        ensures
            final(self).editing_port.is_none(),
            final(self).editing_category == old(self).editing_category,
            final(self).selected_index == old(self).selected_index,
            final(self).expanded_groups == old(self).expanded_groups,
            ({
                let s = match old(self).editing_port {
                    Some(s) => s@,
                    None => Seq::<char>::empty(),
                };
                match (r, port_edit_result(s)) {
                    (Ok(a), Ok(b)) => a == b,
                    (Err(a), Err(b)) => a@ == b,
                    _ => false,
                }
            }),
    {
        let s = match self.editing_port.take() {
            Some(s) => s,
            None => String::new(),
        };
        let cs = chars_of(s.as_str());
        if cs.len() == 0 {
            Ok(None)
        } else {
            match crate::num::parse_unsigned_chars(cs.as_slice(), 65535) {
                Some(p) => Ok(Some(p as u16)),
                None => Err(crate::text::copy_str("Invalid port number")),
            }
        }
    }

    /// Open the category editor with the current category (empty when none).
    pub fn start_editing_category(&mut self, current_category: Option<String>)
        ensures
            final(self).editing_category matches Some(s) && s@ == match current_category {
                Some(c) => c@,
                None => Seq::<char>::empty(),
            },
            final(self).editing_port.is_none(),
            final(self).selected_index == old(self).selected_index,
            final(self).expanded_groups == old(self).expanded_groups,
    {
        let text = match current_category {
            Some(c) => c,
            None => String::new(),
        };
        self.editing_category = Some(text);
        self.editing_port = None;
    }

    /// Close the category editor: empty text means no category.
    pub fn stop_editing_category(&mut self) -> (r: Option<String>)
        ensures
            final(self).editing_category.is_none(),
            final(self).editing_port == old(self).editing_port,
            final(self).selected_index == old(self).selected_index,
            final(self).expanded_groups == old(self).expanded_groups,
            match old(self).editing_category {
                Some(s) => if s@.len() == 0 {
                    r.is_none()
                } else {
                    r matches Some(t) && t@ == s@
                },
                None => r.is_none(),
            },
    {
        let s = match self.editing_category.take() {
            Some(s) => s,
            None => String::new(),
        };
        if chars_of(s.as_str()).len() == 0 {
            None
        } else {
            Some(s)
        }
    }

    pub fn cancel_editing(&mut self)
        ensures
            final(self).editing_port.is_none(),
            final(self).editing_category.is_none(),
            final(self).selected_index == old(self).selected_index,
            final(self).expanded_groups == old(self).expanded_groups,
    {
        self.editing_port = None;
        self.editing_category = None;
    }
}

// ── the rows of the tab ────────────────────────────────────────────────────

/// A row of the projects tab.
#[derive(Clone, Debug, PartialEq)]
pub enum SelectionItem {
    Group { id: String, name: String, expanded: bool, running: bool },
    Project { original_index: usize, group_id: Option<String>, is_infra: bool },
    StandaloneHeader,
}

pub enum RowView {
    Group(Seq<char>, Seq<char>, bool, bool),
    Project(usize, Option<Seq<char>>, bool),
    StandaloneHeader,
}

impl SelectionItem {
    pub open spec fn view(&self) -> RowView {
        match self {
            SelectionItem::Group { id, name, expanded, running } => RowView::Group(id@, name@, *expanded, *running),
            SelectionItem::Project { original_index, group_id, is_infra } => RowView::Project(
                *original_index,
                crate::config::opt_str(*group_id),
                *is_infra,
            ),
            SelectionItem::StandaloneHeader => RowView::StandaloneHeader,
        }
    }
}

pub open spec fn row_views(v: Seq<SelectionItem>) -> Seq<RowView> {
    v.map_values(|r: SelectionItem| r.view())
}

/// The position of the entry with id `id`.
pub open spec fn pos_of(es: Seq<(ProjectView, StatusView)>, id: Seq<char>) -> Option<int>
    decreases es.len(),
{
    if es.len() == 0 {
        None
    } else if es[0].0.id == id {
        Some(0)
    } else {
        match pos_of(es.drop_first(), id) {
            Some(k) => Some(k + 1),
            None => None,
        }
    }
}

/// A group runs when one of its own projects or their engines runs (its
/// shared infrastructure does not count).
pub open spec fn group_running(es: Seq<(ProjectView, StatusView)>, g: GroupView) -> bool {
    exists|i: int, j: int|
        #![trigger g.projects[i], es[j]]
        0 <= i < g.projects.len() && 0 <= j < es.len() && (es[j].0.id == g.projects[i] || es[j].0.id
            == engine_id(g.projects[i])) && es[j].1 is Running
}

/// A row for `id` in group `gid`, when `id` is registered.
pub open spec fn row_for(es: Seq<(ProjectView, StatusView)>, id: Seq<char>, gid: Seq<char>, infra: bool) -> Seq<RowView> {
    match pos_of(es, id) {
        Some(p) => seq![RowView::Project(p as usize, Some(gid), infra)],
        None => Seq::empty(),
    }
}

/// The infrastructure rows of an expanded group.
pub open spec fn infra_rows(es: Seq<(ProjectView, StatusView)>, gid: Seq<char>, ids: Seq<Seq<char>>) -> Seq<RowView>
    decreases ids.len(),
{
    if ids.len() == 0 {
        Seq::empty()
    } else {
        infra_rows(es, gid, ids.drop_last()) + row_for(es, ids.last(), gid, true)
    }
}

/// The project rows of an expanded group: each project, then its engine.
pub open spec fn member_rows(es: Seq<(ProjectView, StatusView)>, gid: Seq<char>, ids: Seq<Seq<char>>) -> Seq<RowView>
    decreases ids.len(),
{
    if ids.len() == 0 {
        Seq::empty()
    } else {
        member_rows(es, gid, ids.drop_last()) + row_for(es, ids.last(), gid, false) + row_for(
            es,
            engine_id(ids.last()),
            gid,
            false,
        )
    }
}

/// The rows of the groups: a row per group, followed (when expanded) by
/// its infrastructure and projects.
pub open spec fn group_rows(es: Seq<(ProjectView, StatusView)>, expanded: Seq<Seq<char>>, gs: Seq<GroupView>) -> Seq<RowView>
    decreases gs.len(),
{
    if gs.len() == 0 {
        Seq::empty()
    } else {
        let g = gs.last();
        let ex = expanded.contains(g.id);
        group_rows(es, expanded, gs.drop_last()) + seq![
            RowView::Group(g.id, g.name, ex, group_running(es, g)),
        ] + if ex {
            infra_rows(es, g.id, g.infrastructure) + member_rows(es, g.id, g.projects)
        } else {
            Seq::empty()
        }
    }
}

/// Whether some group lists `id` among its projects or infrastructure.
pub open spec fn in_any_group(gs: Seq<GroupView>, id: Seq<char>) -> bool {
    exists|k: int| #![trigger gs[k]] 0 <= k < gs.len() && (gs[k].projects.contains(id) || gs[k].infrastructure.contains(id))
}

/// The standalone projects (in no group, not an engine), as rows.
pub open spec fn standalone_rows(es: Seq<(ProjectView, StatusView)>, gs: Seq<GroupView>, n: int) -> Seq<RowView>
    decreases n,
{
    if n <= 0 {
        Seq::empty()
    } else {
        let id = es[n - 1].0.id;
        standalone_rows(es, gs, n - 1) + if !in_any_group(gs, id) && !starts_with(id, "engine:"@) {
            seq![RowView::Project((n - 1) as usize, None, false)]
        } else {
            Seq::empty()
        }
    }
}

/// The rows of the projects tab: the groups, then (when there are any) a
/// header and the standalone projects.
pub open spec fn rows_of(es: Seq<(ProjectView, StatusView)>, expanded: Seq<Seq<char>>, gs: Seq<GroupView>) -> Seq<RowView> {
    let sa = standalone_rows(es, gs, es.len() as int);
    group_rows(es, expanded, gs) + if sa.len() > 0 {
        seq![RowView::StandaloneHeader] + sa
    } else {
        Seq::empty()
    }
}

pub struct ProjectsController;

fn position_of(st: &Vec<(Project, ProcessStatus)>, id: &str) -> (r: Option<usize>)
    ensures
        match r {
            Some(p) => pos_of(st@.map_values(|e: (Project, ProcessStatus)| (e.0@, e.1@)), id@) == Some(p as int),
            None => pos_of(st@.map_values(|e: (Project, ProcessStatus)| (e.0@, e.1@)), id@).is_none(),
        },
{
    let ghost es = st@.map_values(|e: (Project, ProcessStatus)| (e.0@, e.1@));
    let ic = chars_of(id);
    let mut i: usize = 0;
    while i < st.len()
        invariant
            i <= st@.len(),
            es == st@.map_values(|e: (Project, ProcessStatus)| (e.0@, e.1@)),
            ic@ == id@,
            forall|j: int| 0 <= j < i ==> (#[trigger] es[j]).0.id != id@,
        decreases st@.len() - i,
    {
        assert(es[i as int].0.id == st@[i as int].0.id@);
        if crate::text::seq_eq(chars_of(st[i].0.id.as_str()).as_slice(), ic.as_slice()) {
            proof {
                lemma_pos_first(es, id@, i as int);
            }
            return Some(i);
        }
        i = i + 1;
    }
    proof {
        lemma_pos_first(es, id@, es.len() as int);
    }
    None
}

proof fn lemma_pos_first(es: Seq<(ProjectView, StatusView)>, id: Seq<char>, i: int)
    requires
        0 <= i <= es.len(),
        forall|j: int| 0 <= j < i ==> (#[trigger] es[j]).0.id != id,
        i < es.len() ==> es[i].0.id == id,
    ensures
        pos_of(es, id) == if i < es.len() {
            Some(i)
        } else {
            None::<int>
        },
    decreases i,
{
    if i > 0 {
        assert forall|j: int| 0 <= j < i - 1 implies (#[trigger] es.drop_first()[j]).0.id != id by {
            assert(es.drop_first()[j] == es[j + 1]);
        }
        assert(es[0].0.id != id);
        lemma_pos_first(es.drop_first(), id, i - 1);
    }
}

impl ProjectsController {
    /// Whether a group's own projects (or their engines) run.
    pub fn group_has_running_projects(manager: &ProcessManager, group: &Group) -> (r: bool)
        requires
            manager.wf(),
        ensures
            r == group_running(manager.entries(), group@),
    {
        let st = manager.get_statuses();
        let ghost es = manager.entries();
        let ghost gv = group@;
        let mut i: usize = 0;
        while i < group.projects.len()
            invariant
                i <= group.projects@.len(),
                gv == group@,
                es == manager.entries(),
                st@.len() == es.len(),
                forall|k: int| 0 <= k < st@.len() ==> (#[trigger] st@[k]).0@ == es[k].0 && st@[k].1@ == es[k].1,
                forall|a: int, j: int|
                    #![trigger gv.projects[a], es[j]]
                    0 <= a < i && 0 <= j < es.len() ==> !((es[j].0.id == gv.projects[a] || es[j].0.id
                        == engine_id(gv.projects[a])) && es[j].1 is Running),
            decreases group.projects@.len() - i,
        {
            let pid = chars_of(group.projects[i].as_str());
            let mut e = chars_of("engine:");
            crate::text::append_chars(&mut e, pid.as_slice());
            assert(gv.projects[i as int] == pid@);
            let mut j: usize = 0;
            while j < st.len()
                invariant
                    j <= st@.len(),
                    i < group.projects@.len(),
                    gv == group@,
                    es == manager.entries(),
                    pid@ == gv.projects[i as int],
                    e@ == engine_id(pid@),
                    st@.len() == es.len(),
                    forall|k: int| 0 <= k < st@.len() ==> (#[trigger] st@[k]).0@ == es[k].0 && st@[k].1@ == es[k].1,
                    forall|jj: int|
                        0 <= jj < j ==> !(((#[trigger] es[jj]).0.id == gv.projects[i as int] || es[jj].0.id
                            == engine_id(gv.projects[i as int])) && es[jj].1 is Running),
                decreases st@.len() - j,
            {
                let c = chars_of(st[j].0.id.as_str());
                let hit = crate::text::seq_eq(c.as_slice(), pid.as_slice()) || crate::text::seq_eq(c.as_slice(), e.as_slice());
                let running = match st[j].1 {
                    ProcessStatus::Running(_) => true,
                    _ => false,
                };
                assert(st@[j as int].0@ == es[j as int].0);
                if hit && running {
                    assert(es[j as int].0.id == gv.projects[i as int] || es[j as int].0.id == engine_id(gv.projects[i as int]));
                    return true;
                }
                j = j + 1;
            }
            i = i + 1;
        }
        false
    }
}

fn row_for_exec(
    st: &Vec<(Project, ProcessStatus)>,
    id: &str,
    gid: &String,
    infra: bool,
    out: &mut Vec<SelectionItem>,
)
    ensures
        row_views(final(out)@) == row_views(old(out)@) + row_for(
            st@.map_values(|e: (Project, ProcessStatus)| (e.0@, e.1@)),
            id@,
            gid@,
            infra,
        ),
{
    let ghost before = row_views(out@);
    match position_of(st, id) {
        Some(p) => {
            out.push(SelectionItem::Project { original_index: p, group_id: Some(gid.clone()), is_infra: infra });
            assert(row_views(out@) =~= before + seq![RowView::Project(p, Some(gid@), infra)]);
        },
        None => {
            assert(row_views(out@) =~= before + Seq::<RowView>::empty());
        },
    }
}

fn in_any_group_exec(groups: &Vec<Group>, id: &str) -> (r: bool)
    ensures
        r == in_any_group(crate::engine::group_views(groups@), id@),
{
    let ghost gv = crate::engine::group_views(groups@);
    let mut k: usize = 0;
    while k < groups.len()
        invariant
            k <= groups@.len(),
            gv == crate::engine::group_views(groups@),
            forall|q: int| 0 <= q < k ==> !((#[trigger] gv[q]).projects.contains(id@) || gv[q].infrastructure.contains(id@)),
        decreases groups@.len() - k,
    {
        assert(gv[k as int] == groups@[k as int]@);
        assert(ids_of(groups@[k as int].projects@) =~= strs(groups@[k as int].projects@));
        assert(ids_of(groups@[k as int].infrastructure@) =~= strs(groups@[k as int].infrastructure@));
        if contains_id(&groups[k].projects, id) || contains_id(&groups[k].infrastructure, id) {
            assert(gv[k as int].projects.contains(id@) || gv[k as int].infrastructure.contains(id@));
            assert(0 <= k < gv.len());
            assert(in_any_group(gv, id@));
            return true;
        }
        k = k + 1;
    }
    false
}

impl ProjectsController {
    /// The rows of the projects tab.
    pub fn get_all_items(model: &ProjectsModel, manager: &ProcessManager) -> (r: Vec<SelectionItem>)
        requires
            manager.wf(),
        ensures
            row_views(r@) == rows_of(manager.entries(), ids_of(model.expanded_groups@), manager.groups_view()),
    {
        let st = manager.get_statuses();
        let groups = manager.get_groups();
        let ghost es = manager.entries();
        let ghost gs = manager.groups_view();
        let ghost ex = ids_of(model.expanded_groups@);
        assert(st@.map_values(|e: (Project, ProcessStatus)| (e.0@, e.1@)) =~= es);
        let mut items: Vec<SelectionItem> = Vec::new();
        let mut g: usize = 0;
        assert(gs.take(0) =~= Seq::<GroupView>::empty());
        assert(row_views(items@) =~= Seq::<RowView>::empty());
        while g < groups.len()
            invariant
                g <= groups@.len(),
                es == manager.entries(),
                manager.wf(),
                gs == crate::engine::group_views(groups@),
                ex == ids_of(model.expanded_groups@),
                st@.map_values(|e: (Project, ProcessStatus)| (e.0@, e.1@)) == es,
                row_views(items@) == group_rows(es, ex, gs.take(g as int)),
            decreases groups@.len() - g,
        {
            let grp = &groups[g];
            assert(gs[g as int] == grp@);
            let expanded = model.is_group_expanded(grp.id.as_str());
            let running = Self::group_has_running_projects(manager, grp);
            let ghost start = row_views(items@);
            items.push(SelectionItem::Group { id: grp.id.clone(), name: grp.name.clone(), expanded, running });
            let ghost after_head = row_views(items@);
            assert(after_head =~= start + seq![RowView::Group(grp@.id, grp@.name, expanded, running)]);
            if expanded {
                let mut k: usize = 0;
                assert(strs(grp.infrastructure@).take(0) =~= Seq::<Seq<char>>::empty());
                while k < grp.infrastructure.len()
                    invariant
                        k <= grp.infrastructure@.len(),
                        st@.map_values(|e: (Project, ProcessStatus)| (e.0@, e.1@)) == es,
                        row_views(items@) == after_head + infra_rows(es, grp.id@, strs(grp.infrastructure@).take(k as int)),
                    decreases grp.infrastructure@.len() - k,
                {
                    row_for_exec(&st, grp.infrastructure[k].as_str(), &grp.id, true, &mut items);
                    proof {
                        let t = strs(grp.infrastructure@).take(k + 1);
                        assert(t.drop_last() =~= strs(grp.infrastructure@).take(k as int));
                        assert(t.last() == grp.infrastructure@[k as int]@);
                    }
                    k = k + 1;
                }
                assert(strs(grp.infrastructure@).take(grp.infrastructure@.len() as int) =~= strs(grp.infrastructure@));
                let ghost after_infra = row_views(items@);
                let mut k: usize = 0;
                assert(strs(grp.projects@).take(0) =~= Seq::<Seq<char>>::empty());
                while k < grp.projects.len()
                    invariant
                        k <= grp.projects@.len(),
                        st@.map_values(|e: (Project, ProcessStatus)| (e.0@, e.1@)) == es,
                        row_views(items@) == after_infra + member_rows(es, grp.id@, strs(grp.projects@).take(k as int)),
                    decreases grp.projects@.len() - k,
                {
                    let pid = grp.projects[k].as_str();
                    row_for_exec(&st, pid, &grp.id, false, &mut items);
                    let mut e = chars_of("engine:");
                    crate::text::append_chars(&mut e, chars_of(pid).as_slice());
                    let eid = string_of(e.as_slice());
                    row_for_exec(&st, eid.as_str(), &grp.id, false, &mut items);
                    proof {
                        let t = strs(grp.projects@).take(k + 1);
                        assert(t.drop_last() =~= strs(grp.projects@).take(k as int));
                        assert(t.last() == grp.projects@[k as int]@);
                    }
                    k = k + 1;
                }
                assert(strs(grp.projects@).take(grp.projects@.len() as int) =~= strs(grp.projects@));
            }
            proof {
                assert(gs.take(g + 1).drop_last() =~= gs.take(g as int));
                assert(gs.take(g + 1).last() == grp@);
                assert(ex.contains(grp@.id) == expanded);
            }
            g = g + 1;
        }
        assert(gs.take(gs.len() as int) =~= gs);
        // the standalone projects
        let mut sa: Vec<SelectionItem> = Vec::new();
        let mut i: usize = 0;
        assert(row_views(sa@) =~= Seq::<RowView>::empty());
        while i < st.len()
            invariant
                i <= st@.len(),
                es == manager.entries(),
                gs == crate::engine::group_views(groups@),
                st@.map_values(|e: (Project, ProcessStatus)| (e.0@, e.1@)) == es,
                row_views(sa@) == standalone_rows(es, gs, i as int),
            decreases st@.len() - i,
        {
            let id = st[i].0.id.as_str();
            assert(es[i as int].0.id == id@);
            let grouped = in_any_group_exec(&groups, id);
            let engine = crate::text::starts_with_str(chars_of(id).as_slice(), "engine:");
            if !grouped && !engine {
                let ghost before = row_views(sa@);
                sa.push(SelectionItem::Project { original_index: i, group_id: None, is_infra: false });
                assert(row_views(sa@) =~= before + seq![RowView::Project(i, None, false)]);
            } else {
                assert(row_views(sa@) =~= row_views(sa@) + Seq::<RowView>::empty());
            }
            i = i + 1;
        }
        let ghost before = row_views(items@);
        if sa.len() > 0 {
            items.push(SelectionItem::StandaloneHeader);
            let ghost mid = row_views(items@);
            let ghost sv = row_views(sa@);
            let ghost raw_items = items@;
            let ghost raw_sa = sa@;
            items.append(&mut sa);
            assert(items@ =~= raw_items + raw_sa);
            assert(row_views(items@) =~= mid + sv);
            assert(mid =~= before + seq![RowView::StandaloneHeader]);
        }
        items
    }
}

// ── keys ───────────────────────────────────────────────────────────────────

/// What the projects tab asks of the app after a key.
pub enum ProjectAction {
    NoAction,
    Message(String),
    /// Save the configuration and show this message.
    SaveConfigWithMsg(String),
    StartGroup(String),
    StopGroup(String),
    RestartGroup(String),
    Start(String),
    Stop(String),
    Restart(String),
}

pub enum ProjectActionView {
    NoAction,
    Message(Seq<char>),
    SaveConfigWithMsg(Seq<char>),
    StartGroup(Seq<char>),
    StopGroup(Seq<char>),
    RestartGroup(Seq<char>),
    Start(Seq<char>),
    Stop(Seq<char>),
    Restart(Seq<char>),
}

impl ProjectAction {
    pub open spec fn view(&self) -> ProjectActionView {
        match self {
            ProjectAction::NoAction => ProjectActionView::NoAction,
            ProjectAction::Message(m) => ProjectActionView::Message(m@),
            ProjectAction::SaveConfigWithMsg(m) => ProjectActionView::SaveConfigWithMsg(m@),
            ProjectAction::StartGroup(g) => ProjectActionView::StartGroup(g@),
            ProjectAction::StopGroup(g) => ProjectActionView::StopGroup(g@),
            ProjectAction::RestartGroup(g) => ProjectActionView::RestartGroup(g@),
            ProjectAction::Start(i) => ProjectActionView::Start(i@),
            ProjectAction::Stop(i) => ProjectActionView::Stop(i@),
            ProjectAction::Restart(i) => ProjectActionView::Restart(i@),
        }
    }
}

/// The process of the selected row, when it is a project row.
pub open spec fn row_target(rows: Seq<RowView>, sel: int, es: Seq<(ProjectView, StatusView)>) -> Option<(ProjectView, StatusView)> {
    if 0 <= sel < rows.len() && rows[sel] is Project && (rows[sel]->Project_0 as int) < es.len() {
        Some(es[rows[sel]->Project_0 as int])
    } else {
        None
    }
}

/// The group of the selected row, when it is a group row.
pub open spec fn row_group(rows: Seq<RowView>, sel: int) -> Option<Seq<char>> {
    if 0 <= sel < rows.len() && rows[sel] is Group {
        Some(rows[sel]->Group_0)
    } else {
        None
    }
}

/// The message when a project's port was set (or removed).
pub open spec fn port_message(id: Seq<char>, port: Option<u16>) -> Seq<char> {
    match port {
        Some(p) => "Port for "@ + id + " set to "@ + decimal(p as nat),
        None => "Port for "@ + id + " removed"@,
    }
}

/// The message when a project's category was set (or removed).
pub open spec fn category_message(id: Seq<char>, cat: Option<Seq<char>>) -> Seq<char> {
    match cat {
        Some(c) => "Category for "@ + id + " set to "@ + c,
        None => "Category for "@ + id + " removed"@,
    }
}

/// The editor text after a key (`None` when the editor closes).
pub open spec fn port_text_after(s: Seq<char>, key: KeyCode) -> Option<Seq<char>> {
    match key {
        KeyCode::Char(c) => if '0' <= c <= '9' {
            Some(
                if s.len() < 5 {
                    s.push(c)
                } else {
                    s
                },
            )
        } else if c == 'x' {
            Some(Seq::empty())
        } else {
            Some(s)
        },
        KeyCode::Backspace => Some(
            if s.len() > 0 {
                s.drop_last()
            } else {
                s
            },
        ),
        KeyCode::Delete => Some(Seq::empty()),
        KeyCode::Enter | KeyCode::Esc => None,
        _ => Some(s),
    }
}

pub open spec fn category_text_after(s: Seq<char>, key: KeyCode) -> Option<Seq<char>> {
    match key {
        KeyCode::Char(c) => Some(s.push(c)),
        KeyCode::Backspace => Some(
            if s.len() > 0 {
                s.drop_last()
            } else {
                s
            },
        ),
        KeyCode::Delete => Some(Seq::empty()),
        KeyCode::Enter | KeyCode::Esc => None,
        _ => Some(s),
    }
}

/// The manager is unchanged but for the process table.
pub open spec fn manager_kept(old: ProcessManager, new: ProcessManager) -> bool {
    &&& new.wf()
    &&& new.templates_view() == old.templates_view()
    &&& new.groups_view() == old.groups_view()
    &&& new.root() == old.root()
    &&& new.modes() == old.modes()
    &&& new.log_store() == old.log_store()
}

fn push_str(s: &mut String, c: char)
    ensures
        final(s)@ == old(s)@.push(c),
{
    let mut v = chars_of(s.as_str());
    v.push(c);
    *s = string_of(v.as_slice());
}

fn pop_str(s: &mut String)
    ensures
        final(s)@ == if old(s)@.len() > 0 {
            old(s)@.drop_last()
        } else {
            old(s)@
        },
{
    let v = chars_of(s.as_str());
    if v.len() > 0 {
        let w = crate::text::slice_vec(v.as_slice(), 0, v.len() - 1);
        assert(w@ =~= v@.drop_last());
        *s = string_of(w.as_slice());
    }
}

impl ProjectsController {
    /// A key in the projects tab. While a port or category editor is open on
    /// a project row, keys edit it (Enter stores the value in the process
    /// table and asks to save; Esc cancels). Otherwise keys move the
    /// selection (closing any editor), open the editors, start or stop the
    /// selected project or group (Enter), restart it (`r`), or expand or
    /// collapse a group (`e`).
    pub fn handle_key(key: KeyCode, model: &mut ProjectsModel, manager: &mut ProcessManager) -> (r: ProjectAction)
        requires
            old(manager).wf(),
        ensures
            manager_kept(*old(manager), *final(manager)),
            ({
                let es = old(manager).entries();
                let t = old(manager).processes();
                let rows = rows_of(es, ids_of(old(model).expanded_groups@), old(manager).groups_view());
                let sel = old(model).selected_index as int;
                let target = row_target(rows, sel, es);
                let editing = old(model).editing_port is Some || old(model).editing_category is Some;
                if editing && target is Some {
                    let tp = target->0;
                    let p = tp.0;
                    final(model).selected_index == old(model).selected_index
                        && final(model).expanded_groups@ == old(model).expanded_groups@ && if old(model).editing_port is Some {
                        let s = old(model).editing_port->0@;
                        crate::config::opt_str(final(model).editing_port) == port_text_after(s, key)
                            && final(model).editing_category == (if key is Esc {
                            None
                        } else {
                            old(model).editing_category
                        }) && if key is Enter {
                            match port_edit_result(s) {
                                Ok(port) => r.view() == ProjectActionView::SaveConfigWithMsg(port_message(p.id, port))
                                    && final(manager).processes() == crate::engine::manage::edited(
                                    t,
                                    p.id,
                                    (crate::engine::manage::with_port(t[p.id].0, port), t[p.id].1),
                                ),
                                Err(e) => r.view() == ProjectActionView::Message(e) && final(manager).processes() == t,
                            }
                        } else {
                            r.view() == ProjectActionView::NoAction && final(manager).processes() == t
                        }
                    } else {
                        let s = old(model).editing_category->0@;
                        crate::config::opt_str(final(model).editing_category) == category_text_after(s, key)
                            && final(model).editing_port.is_none() && if key is Enter {
                            let cat = if s.len() == 0 {
                                None
                            } else {
                                Some(s)
                            };
                            r.view() == ProjectActionView::SaveConfigWithMsg(category_message(p.id, cat))
                                && final(manager).processes() == crate::engine::manage::edited(
                                t,
                                p.id,
                                (crate::engine::manage::with_category(t[p.id].0, cat), t[p.id].1),
                            )
                        } else {
                            r.view() == ProjectActionView::NoAction && final(manager).processes() == t
                        }
                    }
                } else {
                    final(manager).processes() == t && match key {
                        KeyCode::Down | KeyCode::Char('j') => r.view() == ProjectActionView::NoAction
                            && final(model).editing_port.is_none() && final(model).editing_category.is_none()
                            && final(model).expanded_groups@ == old(model).expanded_groups@
                            && final(model).selected_index == (if rows.len() > 0 {
                            ((old(model).selected_index + 1) % (rows.len() as int)) as usize
                        } else {
                            old(model).selected_index
                        }),
                        KeyCode::Up | KeyCode::Char('k') => r.view() == ProjectActionView::NoAction
                            && final(model).editing_port.is_none() && final(model).editing_category.is_none()
                            && final(model).expanded_groups@ == old(model).expanded_groups@
                            && final(model).selected_index == (if rows.len() > 0 {
                            ((old(model).selected_index + rows.len() - 1) % (rows.len() as int)) as usize
                        } else {
                            old(model).selected_index
                        }),
                        KeyCode::Char('p') => r.view() == ProjectActionView::NoAction
                            && final(model).selected_index == old(model).selected_index
                            && final(model).expanded_groups@ == old(model).expanded_groups@ && match target {
                            Some((pv, _)) => crate::config::opt_str(final(model).editing_port) == Some(
                                match pv.port {
                                    Some(x) => decimal(x as nat),
                                    None => Seq::<char>::empty(),
                                },
                            ) && final(model).editing_category.is_none(),
                            None => final(model).editing_port == old(model).editing_port
                                && final(model).editing_category == old(model).editing_category,
                        },
                        KeyCode::Char('c') => r.view() == ProjectActionView::NoAction
                            && final(model).selected_index == old(model).selected_index
                            && final(model).expanded_groups@ == old(model).expanded_groups@ && match target {
                            Some((pv, _)) => crate::config::opt_str(final(model).editing_category) == Some(
                                match pv.category {
                                    Some(x) => x,
                                    None => Seq::<char>::empty(),
                                },
                            ) && final(model).editing_port.is_none(),
                            None => final(model).editing_port == old(model).editing_port
                                && final(model).editing_category == old(model).editing_category,
                        },
                        KeyCode::Enter => final(model).selected_index == old(model).selected_index
                            && final(model).editing_port == old(model).editing_port
                            && final(model).editing_category == old(model).editing_category
                            && final(model).expanded_groups@ == old(model).expanded_groups@ && r.view() == match row_group(rows, sel) {
                            Some(g) => {
                                let gs = old(manager).groups_view();
                                let found = exists|k: int|
                                    #![trigger gs[k]]
                                    0 <= k < gs.len() && gs[k].id == g && (forall|q: int| 0 <= q < k ==> (#[trigger] gs[q]).id != g)
                                        && group_running(es, gs[k]);
                                if found {
                                    ProjectActionView::StopGroup(g)
                                } else {
                                    ProjectActionView::StartGroup(g)
                                }
                            },
                            None => match target {
                                Some((pv, st)) => if st is Stopped {
                                    ProjectActionView::Start(pv.id)
                                } else {
                                    ProjectActionView::Stop(pv.id)
                                },
                                None => ProjectActionView::NoAction,
                            },
                        },
                        KeyCode::Char('r') => final(model).selected_index == old(model).selected_index
                            && final(model).editing_port == old(model).editing_port
                            && final(model).editing_category == old(model).editing_category
                            && final(model).expanded_groups@ == old(model).expanded_groups@ && r.view() == match row_group(rows, sel) {
                            Some(g) => ProjectActionView::RestartGroup(g),
                            None => match target {
                                Some((pv, _)) => ProjectActionView::Restart(pv.id),
                                None => ProjectActionView::NoAction,
                            },
                        },
                        KeyCode::Char('e') => r.view() == ProjectActionView::NoAction
                            && final(model).selected_index == old(model).selected_index
                            && final(model).editing_port == old(model).editing_port
                            && final(model).editing_category == old(model).editing_category && match row_group(rows, sel) {
                            Some(g) => group_toggled(ids_of(old(model).expanded_groups@), ids_of(final(model).expanded_groups@), g),
                            None => final(model).expanded_groups@ == old(model).expanded_groups@,
                        },
                        _ => r.view() == ProjectActionView::NoAction && final(model).selected_index
                            == old(model).selected_index && final(model).editing_port == old(model).editing_port
                            && final(model).editing_category == old(model).editing_category
                            && final(model).expanded_groups@ == old(model).expanded_groups@,
                    }
                }
            }),
    {
        let items = Self::get_all_items(model, manager);
        let st = manager.get_statuses();
        let ghost es = manager.entries();
        assert(st@.map_values(|e: (Project, ProcessStatus)| (e.0@, e.1@)) =~= es);
        let total = items.len();
        let sel = model.selected_index;
        // the project of the selected row
        let target: Option<usize> = if sel < items.len() {
            assert(row_views(items@)[sel as int] == items@[sel as int].view());
            match &items[sel] {
                SelectionItem::Project { original_index, .. } => if *original_index < st.len() {
                    Some(*original_index)
                } else {
                    None
                },
                _ => None,
            }
        } else {
            None
        };
        let editing = model.editing_port.is_some() || model.editing_category.is_some();
        if editing && target.is_some() {
            let oi = match target {
                Some(x) => x,
                None => 0,
            };
            assert(es[oi as int] == (st@[oi as int].0@, st@[oi as int].1@));
            let id = st[oi].0.id.clone();
            if model.editing_port.is_some() {
                match key {
                    KeyCode::Enter => {
                        let res = model.stop_editing_port();
                        match res {
                            Ok(port) => {
                                manager.update_project_port(id.as_str(), port);
                                let msg = match port {
                                    Some(p) => {
                                        let mut c = chars_of(concat3("Port for ", id.as_str(), " set to ").as_str());
                                        push_decimal(&mut c, p as u64);
                                        string_of(c.as_slice())
                                    },
                                    None => concat3("Port for ", id.as_str(), " removed"),
                                };
                                return ProjectAction::SaveConfigWithMsg(msg);
                            },
                            Err(e) => {
                                return ProjectAction::Message(e);
                            },
                        }
                    },
                    KeyCode::Esc => {
                        model.cancel_editing();
                        return ProjectAction::NoAction;
                    },
                    _ => {},
                }
                let mut input = match model.editing_port.take() {
                    Some(s) => s,
                    None => String::new(),
                };
                match key {
                    KeyCode::Char(c) => {
                        if '0' <= c && c <= '9' {
                            if chars_of(input.as_str()).len() < 5 {
                                push_str(&mut input, c);
                            }
                        } else if c == 'x' {
                            input = String::new();
                        }
                    },
                    KeyCode::Backspace => {
                        pop_str(&mut input);
                    },
                    KeyCode::Delete => {
                        input = String::new();
                    },
                    _ => {},
                }
                model.editing_port = Some(input);
                return ProjectAction::NoAction;
            } else {
                match key {
                    KeyCode::Enter => {
                        let cat = model.stop_editing_category();
                        let cat2 = crate::config::copy_opt(&cat);
                        manager.update_project_category(id.as_str(), cat);
                        let msg = match cat2 {
                            Some(c) => concat4("Category for ", id.as_str(), " set to ", c.as_str()),
                            None => concat3("Category for ", id.as_str(), " removed"),
                        };
                        return ProjectAction::SaveConfigWithMsg(msg);
                    },
                    KeyCode::Esc => {
                        model.cancel_editing();
                        return ProjectAction::NoAction;
                    },
                    _ => {},
                }
                let mut input = match model.editing_category.take() {
                    Some(s) => s,
                    None => String::new(),
                };
                match key {
                    KeyCode::Char(c) => {
                        push_str(&mut input, c);
                    },
                    KeyCode::Backspace => {
                        pop_str(&mut input);
                    },
                    KeyCode::Delete => {
                        input = String::new();
                    },
                    _ => {},
                }
                model.editing_category = Some(input);
                return ProjectAction::NoAction;
            }
        }
        match key {
            KeyCode::Down | KeyCode::Char('j') => {
                model.cancel_editing();
                model.next(total);
                ProjectAction::NoAction
            },
            KeyCode::Up | KeyCode::Char('k') => {
                model.cancel_editing();
                model.prev(total);
                ProjectAction::NoAction
            },
            KeyCode::Char('p') => {
                match target {
                    Some(oi) => {
                        assert(es[oi as int] == (st@[oi as int].0@, st@[oi as int].1@));
                        model.start_editing_port(st[oi].0.port);
                    },
                    None => {},
                }
                ProjectAction::NoAction
            },
            KeyCode::Char('c') => {
                match target {
                    Some(oi) => {
                        assert(es[oi as int] == (st@[oi as int].0@, st@[oi as int].1@));
                        model.start_editing_category(crate::config::copy_opt(&st[oi].0.category));
                    },
                    None => {},
                }
                ProjectAction::NoAction
            },
            KeyCode::Enter | KeyCode::Char('r') => {
                let restart = match key {
                    KeyCode::Enter => false,
                    _ => true,
                };
                if sel < items.len() {
                    match &items[sel] {
                        SelectionItem::Group { id, .. } => {
                            if restart {
                                return ProjectAction::RestartGroup(id.clone());
                            }
                            let running = match manager.get_group(id.as_str()) {
                                Some(g) => Self::group_has_running_projects(manager, &g),
                                None => false,
                            };
                            if running {
                                return ProjectAction::StopGroup(id.clone());
                            } else {
                                return ProjectAction::StartGroup(id.clone());
                            }
                        },
                        _ => {},
                    }
                }
                match target {
                    Some(oi) => {
                        assert(es[oi as int] == (st@[oi as int].0@, st@[oi as int].1@));
                        let id = st[oi].0.id.clone();
                        if restart {
                            ProjectAction::Restart(id)
                        } else {
                            match st[oi].1 {
                                ProcessStatus::Stopped => ProjectAction::Start(id),
                                _ => ProjectAction::Stop(id),
                            }
                        }
                    },
                    None => ProjectAction::NoAction,
                }
            },
            KeyCode::Char('e') => {
                if sel < items.len() {
                    match &items[sel] {
                        SelectionItem::Group { id, .. } => {
                            let ghost before = ids_of(model.expanded_groups@);
                            model.toggle_group(id.as_str());
                            proof {
                                assert(row_views(items@)[sel as int] == items@[sel as int].view());
                            }
                        },
                        _ => {},
                    }
                }
                ProjectAction::NoAction
            },
            _ => ProjectAction::NoAction,
        }
    }
}

// ── what the user is told ──────────────────────────────────────────────────

/// The message after starting (`restart` false) or restarting group `id`.
pub fn group_start_message(id: &str, restart: bool, result: &Result<(), String>) -> (r: String)
    ensures
        r@ == match result {
            Ok(()) => if restart {
                "Group "@ + id@ + " restarted"@
            } else {
                "Group "@ + id@ + " started"@
            },
            Err(e) => "Failed: "@ + e@,
        },
{
    match result {
        Ok(()) => if restart {
            concat3("Group ", id, " restarted")
        } else {
            concat3("Group ", id, " started")
        },
        Err(e) => concat2("Failed: ", e.as_str()),
    }
}

/// The message after stopping group `id`.
pub fn group_stop_message(id: &str) -> (r: String)
    ensures
        r@ == "Group "@ + id@ + " stopped"@,
{
    concat3("Group ", id, " stopped")
}

/// The message when a project could not be started.
pub fn start_failed_message(e: &str) -> (r: String)
    ensures
        r@ == "Failed to start: "@ + e@,
{
    concat2("Failed to start: ", e)
}

} // verus!
