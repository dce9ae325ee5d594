//! The life of a process as the table records it: what a start depends on,
//! the status after a spawn, an exit or a stop, and which processes a group
//! operation touches.
use super::launch::{exit_message, exit_text, spawn_failure_logged, spawn_failure_message, ExitOutcome};
use super::manage::edited;
use super::{
    engine_id, handle_views, index_of, lemma_table_at, replace_at, table, ProcessManager,
    ProcessStatus, StatusView,
};
use crate::config::{copy_strs, strs, GroupView, ProjectView};
use crate::keyed::{kv_find, kv_set};
use crate::text::{append_chars, chars_of, string_of};
use vstd::prelude::*;

verus! {

/// The table with the status of `id` (if registered) replaced.
pub open spec fn status_set(
    t: Map<Seq<char>, (ProjectView, StatusView)>,
    id: Seq<char>,
    st: StatusView,
) -> Map<Seq<char>, (ProjectView, StatusView)> {
    edited(t, id, (t[id].0, st))
}

/// Whether `k` is registered and running.
pub open spec fn running_in(t: Map<Seq<char>, (ProjectView, StatusView)>, k: Seq<char>) -> bool {
    t.contains_key(k) && t[k].1 is Running
}

/// The pid of `k` when it is registered and running.
pub open spec fn pid_in(t: Map<Seq<char>, (ProjectView, StatusView)>, k: Seq<char>) -> Option<u32> {
    if t.contains_key(k) {
        match t[k].1 {
            StatusView::Running(p) => Some(p),
            _ => None,
        }
    } else {
        None
    }
}

/// Whether `id` is registered and declares a backend.
pub open spec fn has_backend(t: Map<Seq<char>, (ProjectView, StatusView)>, id: Seq<char>) -> bool {
    t.contains_key(id) && t[id].0.backend is Some
}

/// The table after a stop reset `k`: running or crashed becomes stopped.
pub open spec fn stop_reset(
    t: Map<Seq<char>, (ProjectView, StatusView)>,
    k: Seq<char>,
) -> Map<Seq<char>, (ProjectView, StatusView)> {
    if t.contains_key(k) && (t[k].1 is Running || t[k].1 is Crashed) {
        t.insert(k, (t[k].0, StatusView::Stopped))
    } else {
        t
    }
}

/// The table after stopping `id`: its engine first (when it declares a
/// backend), then itself.
pub open spec fn stopped_table(
    t: Map<Seq<char>, (ProjectView, StatusView)>,
    id: Seq<char>,
) -> Map<Seq<char>, (ProjectView, StatusView)> {
    let t1 = if has_backend(t, id) {
        stop_reset(t, engine_id(id))
    } else {
        t
    };
    stop_reset(t1, id)
}

/// A stop leaves neither the project nor (when it declares a backend) its
/// engine running or crashed, keeps every registration and configuration,
/// and touches no other process.
pub proof fn law_stop_leaves_nothing_running(t: Map<Seq<char>, (ProjectView, StatusView)>, id: Seq<char>)
    ensures
        stopped_table(t, id).dom() == t.dom(),
        forall|k: Seq<char>| #[trigger] stopped_table(t, id).contains_key(k) ==> stopped_table(t, id)[k].0 == t[k].0,
        t.contains_key(id) ==> !(stopped_table(t, id)[id].1 is Running) && !(stopped_table(t, id)[id].1 is Crashed),
        has_backend(t, id) && t.contains_key(engine_id(id)) ==> !(stopped_table(t, id)[engine_id(id)].1 is Running)
            && !(stopped_table(t, id)[engine_id(id)].1 is Crashed),
        forall|k: Seq<char>|
            k != id && k != engine_id(id) && #[trigger] t.contains_key(k) ==> stopped_table(t, id)[k] == t[k],
{
    reveal_strlit("engine:");
    assert(engine_id(id).len() == id.len() + 7);
    assert(engine_id(id) != id);
    let t1 = if has_backend(t, id) {
        stop_reset(t, engine_id(id))
    } else {
        t
    };
    assert(t1.dom() =~= t.dom());
    assert(stopped_table(t, id).dom() =~= t.dom());
}

/// The status a process has after it ended as `o`.
pub open spec fn exited_status(o: ExitOutcome) -> StatusView {
    match o {
        ExitOutcome::Success => StatusView::Stopped,
        ExitOutcome::Failure(c) => StatusView::Crashed(exit_message(c)),
        ExitOutcome::WaitError(m) => StatusView::Crashed(m@),
    }
}

/// What a start of `id` starts first: its dependencies, then its engine
/// when it declares a backend.
pub open spec fn start_deps_of(t: Map<Seq<char>, (ProjectView, StatusView)>, id: Seq<char>) -> Seq<
    Seq<char>,
> {
    if t.contains_key(id) {
        if t[id].0.backend is Some {
            t[id].0.deps.push(engine_id(id))
        } else {
            t[id].0.deps
        }
    } else {
        Seq::empty()
    }
}

/// The running processes among `ps` and their engines, in order: each
/// project before its engine.
pub open spec fn running_of(t: Map<Seq<char>, (ProjectView, StatusView)>, ps: Seq<Seq<char>>) -> Seq<
    Seq<char>,
>
    decreases ps.len(),
{
    if ps.len() == 0 {
        Seq::empty()
    } else {
        let p = ps.last();
        let a = running_of(t, ps.drop_last());
        let b = if running_in(t, p) {
            a.push(p)
        } else {
            a
        };
        if running_in(t, engine_id(p)) {
            b.push(engine_id(p))
        } else {
            b
        }
    }
}

/// The running processes of all groups (and their engines), group by group.
pub open spec fn running_in_groups(
    t: Map<Seq<char>, (ProjectView, StatusView)>,
    gs: Seq<GroupView>,
) -> Seq<Seq<char>>
    decreases gs.len(),
{
    if gs.len() == 0 {
        Seq::empty()
    } else {
        running_in_groups(t, gs.drop_last()) + running_of(t, gs.last().projects)
    }
}

/// The projects of a group each followed by its engine.
pub open spec fn with_engines(ps: Seq<Seq<char>>) -> Seq<Seq<char>>
    decreases ps.len(),
{
    if ps.len() == 0 {
        Seq::empty()
    } else {
        with_engines(ps.drop_last()).push(ps.last()).push(engine_id(ps.last()))
    }
}

/// The index of the first group with id `id`.
pub open spec fn first_group(gs: Seq<GroupView>, id: Seq<char>, i: int) -> bool {
    0 <= i < gs.len() && gs[i].id == id && forall|j: int| 0 <= j < i ==> (#[trigger] gs[j]).id != id
}

/// The error for an unknown group.
pub open spec fn group_not_found(id: Seq<char>) -> Seq<char> {
    "Group "@ + id + " not found"@
}

fn engine_id_of(id: &str) -> (r: String)
    ensures
        r@ == engine_id(id@),
{
    let mut c = chars_of("engine:");
    append_chars(&mut c, chars_of(id).as_slice());
    string_of(c.as_slice())
}

fn group_error(id: &str) -> (r: String)
    ensures
        r@ == group_not_found(id@),
{
    let mut c = chars_of("Group ");
    append_chars(&mut c, chars_of(id).as_slice());
    append_chars(&mut c, chars_of(" not found").as_slice());
    string_of(c.as_slice())
}

fn push_all(out: &mut Vec<String>, v: &Vec<String>)
    ensures
        strs(final(out)@) == strs(old(out)@) + strs(v@),
{
    let mut i: usize = 0;
    let ghost base = strs(out@);
    while i < v.len()
        invariant
            i <= v@.len(),
            strs(out@) == base + strs(v@).take(i as int),
        decreases v@.len() - i,
    {
        let ghost before = out@;
        out.push(v[i].clone());
        assert(strs(out@) =~= strs(before).push(v@[i as int]@));
        assert(strs(v@).take(i + 1) =~= strs(v@).take(i as int).push(v@[i as int]@));
        i = i + 1;
    }
    assert(strs(v@).take(v@.len() as int) =~= strs(v@));
}

impl ProcessManager {
    /// The status of `id`, when registered.
    pub fn status_of(&self, id: &str) -> (r: Option<ProcessStatus>)
        requires
            self.wf(),
        ensures
            match r {
                Some(s) => self.processes().contains_key(id@) && s@ == self.processes()[id@].1,
                None => !self.processes().contains_key(id@),
            },
    {
        let key = chars_of(id);
        match index_of(&self.processes, key.as_slice()) {
            Some(i) => {
                proof {
                    lemma_table_at(self.processes@, i as int);
                }
                Some(self.processes[i].status.copy())
            },
            None => None,
        }
    }

    /// The configured port of `id`, when registered.
    pub fn project_port(&self, id: &str) -> (r: Option<u16>)
        requires
            self.wf(),
        ensures
            r == if self.processes().contains_key(id@) {
                self.processes()[id@].0.port
            } else {
                None
            },
    {
        let key = chars_of(id);
        match index_of(&self.processes, key.as_slice()) {
            Some(i) => {
                proof {
                    lemma_table_at(self.processes@, i as int);
                }
                self.processes[i].config.port
            },
            None => None,
        }
    }

    pub(crate) fn set_status(&mut self, id: &str, st: ProcessStatus)
        requires
            old(self).wf(),
        ensures
            final(self).wf(),
            final(self).processes() == status_set(old(self).processes(), id@, st@),
            final(self).templates_view() == old(self).templates_view(),
            final(self).groups_view() == old(self).groups_view(),
            final(self).root() == old(self).root(),
            final(self).modes() == old(self).modes(),
            final(self).log_store() == old(self).log_store(),
    {
        let key = chars_of(id);
        match index_of(&self.processes, key.as_slice()) {
            Some(i) => {
                let mut h = self.processes[i].copy();
                h.status = st;
                proof {
                    lemma_table_at(self.processes@, i as int);
                }
                replace_at(&mut self.processes, i, h);
            },
            None => {},
        }
    }

    /// Record that the process of `id` was spawned with `pid`.
    pub fn mark_running(&mut self, id: &str, pid: u32)
        requires
            old(self).wf(),
        ensures
            final(self).wf(),
            final(self).processes() == status_set(old(self).processes(), id@, StatusView::Running(pid)),
            final(self).templates_view() == old(self).templates_view(),
            final(self).groups_view() == old(self).groups_view(),
            final(self).root() == old(self).root(),
            final(self).modes() == old(self).modes(),
            final(self).log_store() == old(self).log_store(),
    {
        self.set_status(id, ProcessStatus::Running(pid));
    }

    /// Record that spawning `id` failed with `err`: it is marked crashed and
    /// the failure is logged. The error to report is returned.
    pub fn spawn_failed(&mut self, id: &str, err: &str) -> (r: String)
        requires
            old(self).wf(),
            old(self).rev_of(id@) < u64::MAX,
        ensures
            r@ == spawn_failure_message(err@),
            final(self).wf(),
            final(self).processes() == status_set(
                old(self).processes(),
                id@,
                StatusView::Crashed(err@),
            ),
            final(self).logs_of(id@) == if old(self).processes().contains_key(id@) {
                old(self).logs_of(id@).push(spawn_failure_logged(err@))
            } else {
                old(self).logs_of(id@)
            },
            forall|k: Seq<char>| k != id@ ==> #[trigger] final(self).logs_of(k) == old(self).logs_of(k),
            final(self).rev_of(id@) == old(self).rev_of(id@) + 1,
            forall|k: Seq<char>| k != id@ ==> #[trigger] final(self).rev_of(k) == old(self).rev_of(k),
            final(self).templates_view() == old(self).templates_view(),
            final(self).groups_view() == old(self).groups_view(),
            final(self).root() == old(self).root(),
    {
        let registered = self.status_of(id).is_some();
        self.set_status(id, ProcessStatus::Crashed(crate::text::copy_str(err)));
        if registered {
            let mut lines: Vec<String> = match kv_find(&self.logs, id) {
                Some(j) => copy_strs(&self.logs[j].1),
                None => Vec::new(),
            };
            let ghost old_lines = strs(lines@);
            assert(old_lines == old(self).logs_of(id@)) by {
                assert(strs(Seq::<String>::empty()) =~= Seq::<Seq<char>>::empty());
            }
            let mut line = chars_of("\x1b[31m[CRITICAL] Failed to spawn: ");
            append_chars(&mut line, chars_of(err).as_slice());
            append_chars(&mut line, chars_of("\x1b[0m").as_slice());
            let l = string_of(line.as_slice());
            lines.push(l);
            assert(strs(lines@) =~= old_lines.push(spawn_failure_logged(err@)));
            kv_set(&mut self.logs, crate::text::copy_str(id), lines);
        }
        self.bump_log_rev(id);
        let mut msg = chars_of("Failed to spawn: ");
        append_chars(&mut msg, chars_of(err).as_slice());
        string_of(msg.as_slice())
    }

    /// Record that the process `pid` of `id` ended as `outcome`; ignored
    /// unless `id` is still running that very process.
    pub fn process_exited(&mut self, id: &str, pid: u32, outcome: ExitOutcome)
        requires
            old(self).wf(),
        ensures
            final(self).wf(),
            final(self).processes() == if old(self).processes().contains_key(id@) && old(
                self,
            ).processes()[id@].1 == StatusView::Running(pid) {
                status_set(old(self).processes(), id@, exited_status(outcome))
            } else {
                old(self).processes()
            },
            final(self).templates_view() == old(self).templates_view(),
            final(self).groups_view() == old(self).groups_view(),
            final(self).root() == old(self).root(),
            final(self).modes() == old(self).modes(),
            final(self).log_store() == old(self).log_store(),
    {
        let ghost o = outcome;
        match self.status_of(id) {
            Some(ProcessStatus::Running(p)) => {
                if p == pid {
                    let st = match outcome {
                        ExitOutcome::Success => ProcessStatus::Stopped,
                        ExitOutcome::Failure(c) => ProcessStatus::Crashed(exit_text(c)),
                        ExitOutcome::WaitError(m) => ProcessStatus::Crashed(m),
                    };
                    assert(st@ == exited_status(o));
                    self.set_status(id, st);
                }
            },
            _ => {},
        }
    }

    /// The pids a stop of `id` signals: its engine's (when it declares a
    /// backend and the engine runs), then its own (when it runs).
    pub fn stop_pids(&self, id: &str) -> (r: (Option<u32>, Option<u32>))
        requires
            self.wf(),
        ensures
            r.0 == if has_backend(self.processes(), id@) {
                pid_in(self.processes(), engine_id(id@))
            } else {
                None
            },
            r.1 == pid_in(self.processes(), id@),
    {
        let key = chars_of(id);
        let mut backend = false;
        let mut own: Option<u32> = None;
        match index_of(&self.processes, key.as_slice()) {
            Some(i) => {
                proof {
                    lemma_table_at(self.processes@, i as int);
                }
                backend = self.processes[i].config.backend.is_some();
                own = match self.processes[i].status {
                    ProcessStatus::Running(p) => Some(p),
                    _ => None,
                };
            },
            None => {},
        }
        let mut engine: Option<u32> = None;
        if backend {
            let e = engine_id_of(id);
            engine = match self.status_of(e.as_str()) {
                Some(ProcessStatus::Running(p)) => Some(p),
                _ => None,
            };
        }
        (engine, own)
    }

    fn reset_after_stop(&mut self, k: &str)
        requires
            old(self).wf(),
        ensures
            final(self).wf(),
            final(self).processes() == stop_reset(old(self).processes(), k@),
            final(self).templates_view() == old(self).templates_view(),
            final(self).groups_view() == old(self).groups_view(),
            final(self).root() == old(self).root(),
            final(self).modes() == old(self).modes(),
            final(self).log_store() == old(self).log_store(),
    {
        match self.status_of(k) {
            Some(ProcessStatus::Running(_)) | Some(ProcessStatus::Crashed(_)) => {
                self.set_status(k, ProcessStatus::Stopped);
            },
            _ => {},
        }
    }

    /// Record that `id` was stopped: its engine (when it declares a backend)
    /// and itself go from running or crashed to stopped.
    pub fn finish_stop(&mut self, id: &str)
        requires
            old(self).wf(),
        ensures
            final(self).wf(),
            final(self).processes() == stopped_table(old(self).processes(), id@),
            final(self).templates_view() == old(self).templates_view(),
            final(self).groups_view() == old(self).groups_view(),
            final(self).root() == old(self).root(),
            final(self).modes() == old(self).modes(),
            final(self).log_store() == old(self).log_store(),
    {
        let backend = match index_of(&self.processes, chars_of(id).as_slice()) {
            Some(i) => {
                proof {
                    lemma_table_at(self.processes@, i as int);
                }
                self.processes[i].config.backend.is_some()
            },
            None => false,
        };
        if backend {
            let e = engine_id_of(id);
            self.reset_after_stop(e.as_str());
        }
        self.reset_after_stop(id);
    }

    /// What a start of `id` starts first: its dependencies, then its engine
    /// when it declares a backend.
    pub fn start_deps(&self, id: &str) -> (r: Vec<String>)
        requires
            self.wf(),
        ensures
            strs(r@) == start_deps_of(self.processes(), id@),
    {
        match index_of(&self.processes, chars_of(id).as_slice()) {
            Some(i) => {
                proof {
                    lemma_table_at(self.processes@, i as int);
                }
                let mut deps = copy_strs(&self.processes[i].config.deps);
                if self.processes[i].config.backend.is_some() {
                    let ghost before = strs(deps@);
                    deps.push(engine_id_of(id));
                    assert(strs(deps@) =~= before.push(engine_id(id@)));
                }
                deps
            },
            None => {
                assert(strs(Seq::<String>::empty()) =~= Seq::<Seq<char>>::empty());
                Vec::new()
            },
        }
    }

    /// Whether a dependency `id` must be started: it is registered and stopped.
    pub fn needs_start(&self, id: &str) -> (r: bool)
        requires
            self.wf(),
        ensures
            r == (self.processes().contains_key(id@) && self.processes()[id@].1
                == StatusView::Stopped),
    {
        match self.status_of(id) {
            Some(ProcessStatus::Stopped) => true,
            _ => false,
        }
    }

    fn push_if_running(&self, out: &mut Vec<String>, k: String)
        requires
            self.wf(),
        ensures
            strs(final(out)@) == if running_in(self.processes(), k@) {
                strs(old(out)@).push(k@)
            } else {
                strs(old(out)@)
            },
    {
        match self.status_of(k.as_str()) {
            Some(ProcessStatus::Running(_)) => {
                let ghost before = strs(out@);
                let ghost kv = k@;
                out.push(k);
                assert(strs(out@) =~= before.push(kv));
            },
            _ => {},
        }
    }

    /// The running processes of every group, and their running engines,
    /// group by group: what is stopped before a group starts.
    pub fn group_stop_list(&self) -> (r: Vec<String>)
        requires
            self.wf(),
        ensures
            strs(r@) == running_in_groups(self.processes(), self.groups_view()),
    {
        let mut out: Vec<String> = Vec::new();
        let mut g: usize = 0;
        let ghost gs = self.groups_view();
        assert(gs.take(0) =~= Seq::<GroupView>::empty());
        assert(strs(out@) =~= Seq::<Seq<char>>::empty());
        while g < self.groups.len()
            invariant
                self.wf(),
                g <= self.groups@.len(),
                gs == self.groups_view(),
                gs.len() == self.groups@.len(),
                strs(out@) == running_in_groups(self.processes(), gs.take(g as int)),
            decreases self.groups@.len() - g,
        {
            let ps = &self.groups[g].projects;
            assert(gs[g as int].projects == strs(ps@));
            let ghost start = strs(out@);
            let mut i: usize = 0;
            assert(strs(ps@).take(0) =~= Seq::<Seq<char>>::empty());
            assert(start + running_of(self.processes(), strs(ps@).take(0)) =~= start);
            while i < ps.len()
                invariant
                    self.wf(),
                    i <= ps@.len(),
                    strs(out@) == start + running_of(self.processes(), strs(ps@).take(i as int)),
                decreases ps@.len() - i,
            {
                let p = &ps[i];
                let ghost pv = p@;
                let ghost mid = strs(out@);
                self.push_if_running(&mut out, p.clone());
                self.push_if_running(&mut out, engine_id_of(p.as_str()));
                proof {
                    let q = strs(ps@).take(i + 1);
                    assert(q.drop_last() =~= strs(ps@).take(i as int));
                    assert(q.last() == pv);
                    let a = running_of(self.processes(), strs(ps@).take(i as int));
                    let b = if running_in(self.processes(), pv) {
                        a.push(pv)
                    } else {
                        a
                    };
                    let c = if running_in(self.processes(), engine_id(pv)) {
                        b.push(engine_id(pv))
                    } else {
                        b
                    };
                    assert(running_of(self.processes(), q) == c);
                    assert(start + c =~= strs(out@));
                }
                i = i + 1;
            }
            proof {
                assert(strs(ps@).take(ps@.len() as int) =~= strs(ps@));
                assert(gs.take(g + 1).drop_last() =~= gs.take(g as int));
                assert(gs.take(g + 1).last() == gs[g as int]);
            }
            g = g + 1;
        }
        assert(gs.take(gs.len() as int) =~= gs);
        out
    }

    /// What starting group `group_id` starts, in order: its infrastructure,
    /// then its projects.
    pub fn group_start_list(&self, group_id: &str) -> (r: Result<Vec<String>, String>)
        ensures
            match r {
                Ok(ids) => exists|i: int|
                    first_group(self.groups_view(), group_id@, i) && strs(ids@)
                        == self.groups_view()[i].infrastructure + self.groups_view()[i].projects,
                Err(e) => e@ == group_not_found(group_id@) && forall|j: int|
                    0 <= j < self.groups_view().len() ==> (#[trigger] self.groups_view()[j]).id
                        != group_id@,
            },
    {
        match self.get_group(group_id) {
            None => Err(group_error(group_id)),
            Some(g) => {
                let mut out = copy_strs(&g.infrastructure);
                push_all(&mut out, &g.projects);
                proof {
                    let gv = self.groups_view();
                    let i = choose|i: int|
                        0 <= i < gv.len() && gv[i] == g@ && g@.id == group_id@ && forall|j: int|
                            0 <= j < i ==> (#[trigger] gv[j]).id != group_id@;
                    assert(first_group(gv, group_id@, i));
                }
                Ok(out)
            },
        }
    }

    /// What stopping group `group_id` stops, in order: each project followed
    /// by its engine, then the infrastructure.
    pub fn group_stop_order(&self, group_id: &str) -> (r: Result<Vec<String>, String>)
        ensures
            match r {
                Ok(ids) => exists|i: int|
                    first_group(self.groups_view(), group_id@, i) && strs(ids@) == with_engines(
                        self.groups_view()[i].projects,
                    ) + self.groups_view()[i].infrastructure,
                Err(e) => e@ == group_not_found(group_id@) && forall|j: int|
                    0 <= j < self.groups_view().len() ==> (#[trigger] self.groups_view()[j]).id
                        != group_id@,
            },
    {
        match self.get_group(group_id) {
            None => Err(group_error(group_id)),
            Some(g) => {
                let mut out: Vec<String> = Vec::new();
                let mut i: usize = 0;
                let ghost ps = strs(g.projects@);
                assert(ps.take(0) =~= Seq::<Seq<char>>::empty());
                assert(strs(out@) =~= Seq::<Seq<char>>::empty());
                while i < g.projects.len()
                    invariant
                        i <= g.projects@.len(),
                        ps == strs(g.projects@),
                        strs(out@) == with_engines(ps.take(i as int)),
                    decreases g.projects@.len() - i,
                {
                    let p = &g.projects[i];
                    let ghost before = strs(out@);
                    out.push(p.clone());
                    out.push(engine_id_of(p.as_str()));
                    proof {
                        assert(strs(out@) =~= before.push(p@).push(engine_id(p@)));
                        assert(ps.take(i + 1).drop_last() =~= ps.take(i as int));
                        assert(ps.take(i + 1).last() == p@);
                    }
                    i = i + 1;
                }
                assert(ps.take(ps.len() as int) =~= ps);
                push_all(&mut out, &g.infrastructure);
                proof {
                    let gv = self.groups_view();
                    let i = choose|i: int|
                        0 <= i < gv.len() && gv[i] == g@ && g@.id == group_id@ && forall|j: int|
                            0 <= j < i ==> (#[trigger] gv[j]).id != group_id@;
                    assert(first_group(gv, group_id@, i));
                }
                Ok(out)
            },
        }
    }

    /// The ids of the running processes, in id order.
    pub fn running_ids(&self) -> (r: Vec<String>)
        ensures
            strs(r@) == self.entries().filter(|e: (ProjectView, StatusView)| e.1 is Running).map_values(
                |e: (ProjectView, StatusView)| e.0.id,
            ),
    {
        let ghost f = |e: (ProjectView, StatusView)| e.1 is Running;
        let ghost g = |e: (ProjectView, StatusView)| e.0.id;
        let ghost es = self.entries();
        let mut r: Vec<String> = Vec::new();
        let mut i: usize = 0;
        assert(es.take(0).filter(f) =~= Seq::<(ProjectView, StatusView)>::empty());
        assert(strs(r@) =~= Seq::<Seq<char>>::empty());
        while i < self.processes.len()
            invariant
                i <= self.processes@.len(),
                es == self.entries(),
                es.len() == self.processes@.len(),
                f == (|e: (ProjectView, StatusView)| e.1 is Running),
                g == (|e: (ProjectView, StatusView)| e.0.id),
                strs(r@) == es.take(i as int).filter(f).map_values(g),
            decreases self.processes@.len() - i,
        {
            let h = &self.processes[i];
            let ghost before = strs(r@);
            proof {
                assert(es.take(i + 1).drop_last() =~= es.take(i as int));
                assert(es[i as int] == h@);
                reveal_with_fuel(Seq::filter, 1);
            }
            match h.status {
                ProcessStatus::Running(_) => {
                    r.push(h.config.id.clone());
                    assert(strs(r@) =~= before.push(h.config.id@));
                    assert(es.take(i as int).filter(f).push(es[i as int]).map_values(g) =~= es.take(
                        i as int,
                    ).filter(f).map_values(g).push(h.config.id@));
                },
                _ => {},
            }
            i = i + 1;
        }
        assert(es.take(es.len() as int) =~= es);
        r
    }

    /// The ports of the processes in host mode, in id order.
    pub fn host_mode_ports(&self) -> (r: Vec<u16>)
        ensures
            r@ == self.entries().filter(
                |e: (ProjectView, StatusView)| self.host_on(e.0.id) && e.0.port is Some,
            ).map_values(|e: (ProjectView, StatusView)| e.0.port->0),
    {
        let ghost f = |e: (ProjectView, StatusView)| self.host_on(e.0.id) && e.0.port is Some;
        let ghost g = |e: (ProjectView, StatusView)| e.0.port->0;
        let ghost es = self.entries();
        let mut r: Vec<u16> = Vec::new();
        let mut i: usize = 0;
        assert(es.take(0).filter(f) =~= Seq::<(ProjectView, StatusView)>::empty());
        while i < self.processes.len()
            invariant
                i <= self.processes@.len(),
                es == self.entries(),
                es.len() == self.processes@.len(),
                f == (|e: (ProjectView, StatusView)| self.host_on(e.0.id) && e.0.port is Some),
                g == (|e: (ProjectView, StatusView)| e.0.port->0),
                r@ == es.take(i as int).filter(f).map_values(g),
            decreases self.processes@.len() - i,
        {
            let h = &self.processes[i];
            proof {
                assert(es.take(i + 1).drop_last() =~= es.take(i as int));
                assert(es[i as int] == h@);
                reveal_with_fuel(Seq::filter, 1);
            }
            if self.is_host_mode(h.config.id.as_str()) {
                match h.config.port {
                    Some(p) => {
                        let ghost before = r@;
                        r.push(p);
                        assert(es.take(i as int).filter(f).push(es[i as int]).map_values(g) =~= before.push(p));
                    },
                    None => {},
                }
            }
            i = i + 1;
        }
        assert(es.take(es.len() as int) =~= es);
        r
    }
}

} // verus!
