//! The decisions of a start: which port a process gets, whether another
//! running process already holds it, whether it can be launched at all, and
//! the command, environment and directory it is launched with.
use super::env::{env_fold, env_searched, pair_views, resolve_env, string_seq_views, CtxView, EnvCtx, EnvVars};
use super::launch::{command_for_launch, launch_command};
use super::lifecycle::status_set;
use super::manage::{edited, port_assigned, with_port};
use super::{
    engine_id, find_available_port, index_of, lemma_table_at, port_search_result, ProcessManager,
    ProcessStatus, StatusView,
};
use crate::config::{absolutize, absolutized, copy_env_specs, env_views, name_of, GroupView, ProjectView};
use crate::keyed::kv_set;
use crate::num::{decimal, push_decimal};
use crate::text::{append_chars, chars_of, slice_vec, starts_with, starts_with_str, string_of};
use vstd::prelude::*;

verus! {

/// The parent of a virtual engine id `engine:<parent>`.
pub open spec fn engine_parent(id: Seq<char>) -> Option<Seq<char>> {
    if starts_with(id, "engine:"@) {
        Some(id.skip(7))
    } else {
        None
    }
}

/// The configured ports, in entry order.
pub open spec fn ports_in(es: Seq<(ProjectView, StatusView)>) -> Seq<u16>
    decreases es.len(),
{
    if es.len() == 0 {
        Seq::empty()
    } else {
        let r = ports_in(es.drop_last());
        match es.last().0.port {
            Some(p) => r.push(p),
            None => r,
        }
    }
}

/// The configured ports of every entry but `id`, in entry order.
pub open spec fn ports_besides(es: Seq<(ProjectView, StatusView)>, id: Seq<char>) -> Seq<u16>
    decreases es.len(),
{
    if es.len() == 0 {
        Seq::empty()
    } else {
        let r = ports_besides(es.drop_last(), id);
        match es.last().0.port {
            Some(p) => if es.last().0.id != id {
                r.push(p)
            } else {
                r
            },
            None => r,
        }
    }
}

/// No group lists `id` among its projects.
pub open spec fn in_no_group(gs: Seq<GroupView>, id: Seq<char>) -> bool {
    forall|j: int| 0 <= j < gs.len() ==> !(#[trigger] gs[j]).projects.contains(id)
}

/// The free-port search a start of `id` makes, as the ports it skips and
/// the port it starts from: none when `id` has a port of its own or is an
/// engine whose parent fixes its backend port. An engine searches from
/// above its parent's port (3001 when the parent has none), past every
/// configured port; any other project from 5173 when it is in no group,
/// from 3000 when it is, past the ports of the other projects.
pub open spec fn start_search(
    t: Map<Seq<char>, (ProjectView, StatusView)>,
    es: Seq<(ProjectView, StatusView)>,
    gs: Seq<GroupView>,
    id: Seq<char>,
) -> Option<(Seq<u16>, int)> {
    let own = if t.contains_key(id) {
        t[id].0.port
    } else {
        None
    };
    if own is Some {
        None
    } else {
        match engine_parent(id) {
            Some(parent) => {
                let fixed = if t.contains_key(parent) {
                    match t[parent].0.backend {
                        Some(b) => b.port,
                        None => None,
                    }
                } else {
                    None
                };
                if fixed is Some {
                    None
                } else {
                    let base: int = if t.contains_key(parent) && t[parent].0.port is Some {
                        t[parent].0.port->0 + 1
                    } else {
                        3001
                    };
                    Some((ports_in(es), base))
                }
            },
            None => Some(
                (
                    ports_besides(es, id),
                    if in_no_group(gs, id) {
                        5173
                    } else {
                        3000
                    },
                ),
            ),
        }
    }
}

/// The port `id` starts on, its search (if it makes one) answered `found`:
/// its configured port if it has one; an engine its parent's fixed backend
/// port if there is one; else the port the search found. `None` when the
/// search found none (or would start past 65535).
pub open spec fn start_port(
    t: Map<Seq<char>, (ProjectView, StatusView)>,
    es: Seq<(ProjectView, StatusView)>,
    gs: Seq<GroupView>,
    id: Seq<char>,
    found: Option<u16>,
) -> Option<u16> {
    let own = if t.contains_key(id) {
        t[id].0.port
    } else {
        None
    };
    if own is Some {
        own
    } else {
        match engine_parent(id) {
            Some(parent) => {
                let fixed = if t.contains_key(parent) {
                    match t[parent].0.backend {
                        Some(b) => b.port,
                        None => None,
                    }
                } else {
                    None
                };
                if fixed is Some {
                    fixed
                } else {
                    match start_search(t, es, gs, id) {
                        Some(sk) => if sk.1 <= 65535 {
                            found
                        } else {
                            None
                        },
                        None => None,
                    }
                }
            },
            None => found,
        }
    }
}

/// `found` is an answer the start's port search can give (none when it
/// makes none or starts past 65535).
pub open spec fn port_searched<F: Fn(u16) -> bool>(
    f: F,
    t: Map<Seq<char>, (ProjectView, StatusView)>,
    es: Seq<(ProjectView, StatusView)>,
    gs: Seq<GroupView>,
    id: Seq<char>,
    found: Option<u16>,
) -> bool {
    match start_search(t, es, gs, id) {
        Some(sk) => if sk.1 <= 65535 {
            port_search_result(f, sk.0, sk.1, found)
        } else {
            found is None
        },
        None => found is None,
    }
}

/// The first process other than `id` that runs on port `p`, in entry order.
pub open spec fn port_holder(es: Seq<(ProjectView, StatusView)>, id: Seq<char>, p: u16) -> Option<
    ProjectView,
>
    decreases es.len(),
{
    if es.len() == 0 {
        None
    } else if es[0].0.id != id && es[0].0.port == Some(p) && es[0].1 is Running {
        Some(es[0].0)
    } else {
        port_holder(es.drop_first(), id, p)
    }
}

pub open spec fn port_in_use(p: u16, name: Seq<char>) -> Seq<char> {
    "Port "@ + decimal(p as nat) + " is already in use by project "@ + name
}

pub open spec fn no_command(name: Seq<char>) -> Seq<char> {
    "Project "@ + name + " is set to env_only or has no command"@
}

pub open spec fn no_free_port() -> Seq<char> {
    "No free port available"@
}

/// The context the env of `id` resolves in, once it runs on port `p`: an
/// engine resolves against its parent (`{{id}}`, `{{path}}` and
/// `{{parent_port}}` are the parent's); any other project against itself,
/// with `{{backend_port}}` its engine's port.
pub open spec fn launch_ctx(
    t: Map<Seq<char>, (ProjectView, StatusView)>,
    es: Seq<(ProjectView, StatusView)>,
    id: Seq<char>,
    p: u16,
) -> CtxView {
    match engine_parent(id) {
        Some(parent) => CtxView {
            id: parent,
            path: if t.contains_key(parent) {
                t[parent].0.path
            } else {
                Seq::empty()
            },
            port: Some(p),
            parent_port: if t.contains_key(parent) {
                t[parent].0.port
            } else {
                None
            },
            backend_port: None,
            used_ports: ports_in(es),
        },
        None => CtxView {
            id,
            path: if t.contains_key(id) {
                t[id].0.path
            } else {
                Seq::empty()
            },
            port: Some(p),
            parent_port: None,
            backend_port: if t.contains_key(engine_id(id)) {
                t[engine_id(id)].0.port
            } else {
                None
            },
            used_ports: ports_in(es),
        },
    }
}

/// How a process is launched.
pub struct LaunchPlan {
    /// The shell command line.
    pub command: String,
    /// Whether `HOST=0.0.0.0` is set.
    pub host_env: bool,
    /// The port, given as `PORT` and `ENGINE_PORT`.
    pub port: u16,
    /// The resolved environment, applied after the port variables.
    pub env: EnvVars,
    /// The working directory.
    pub work_dir: String,
}

pub struct LaunchView {
    pub command: Seq<char>,
    pub host_env: bool,
    pub port: u16,
    pub env: Seq<(Seq<char>, Seq<char>)>,
    pub work_dir: Seq<char>,
}

impl LaunchPlan {
    pub open spec fn view(&self) -> LaunchView {
        LaunchView {
            command: self.command@,
            host_env: self.host_env,
            port: self.port,
            env: self.env.pairs(),
            work_dir: self.work_dir@,
        }
    }
}

/// The id whose host mode applies to `id`: an engine follows its parent.
pub open spec fn host_mode_id(id: Seq<char>) -> Seq<char> {
    match engine_parent(id) {
        Some(parent) => parent,
        None => id,
    }
}

/// The table after `id` (if registered) got port `p`.
pub open spec fn port_set(t: Map<Seq<char>, (ProjectView, StatusView)>, id: Seq<char>, p: u16) -> Map<
    Seq<char>,
    (ProjectView, StatusView),
> {
    edited(t, id, (with_port(t[id].0, Some(p)), t[id].1))
}

/// The ids of the running processes among `es`.
pub open spec fn running_ids_of(es: Seq<(ProjectView, StatusView)>) -> Seq<Seq<char>> {
    es.filter(|e: (ProjectView, StatusView)| e.1 is Running).map_values(|e: (ProjectView, StatusView)| e.0.id)
}

/// The launch of `id` on port `p`, from the table `t2` and entries `es2`
/// after the port was assigned; the searches of its env templates answered
/// `eo`.
pub open spec fn launch_view(
    m: ProcessManager,
    t2: Map<Seq<char>, (ProjectView, StatusView)>,
    es2: Seq<(ProjectView, StatusView)>,
    id: Seq<char>,
    p: u16,
    files: Seq<(Seq<char>, Seq<char>)>,
    eo: Seq<Seq<Option<u16>>>,
) -> LaunchView {
    let pv = t2[id].0;
    let c = launch_command(pv.command->0, m.host_on(host_mode_id(id)), m.prod_on(id));
    LaunchView {
        command: c.0,
        host_env: c.1,
        port: p,
        env: env_fold(
            pv.env,
            0,
            launch_ctx(t2, es2, id, p),
            Seq::empty(),
            Seq::empty(),
            files,
            running_ids_of(es2),
            eo,
        ),
        work_dir: absolutized(m.root(), pv.path),
    }
}

/// What a start of `id` answers, its port search answered `found` and its
/// env searches `eo`: an error, nothing to launch (unknown or already
/// running), or the launch.
pub open spec fn start_outcome(
    m: ProcessManager,
    id: Seq<char>,
    files: Seq<(Seq<char>, Seq<char>)>,
    found: Option<u16>,
    eo: Seq<Seq<Option<u16>>>,
) -> Result<Option<LaunchView>, Seq<char>> {
    match start_port(m.processes(), m.entries(), m.groups_view(), id, found) {
        None => Err(no_free_port()),
        Some(p) => {
            let es2 = port_assigned(m.entries(), id, Some(p));
            let t2 = port_set(m.processes(), id, p);
            match port_holder(es2, id, p) {
                Some(h) => Err(port_in_use(p, name_of(h))),
                None => if !t2.contains_key(id) || t2[id].1 is Running {
                    Ok(None)
                } else if t2[id].0.env_only || t2[id].0.command is None {
                    Err(no_command(name_of(t2[id].0)))
                } else {
                    Ok(Some(launch_view(m, t2, es2, id, p, files, eo)))
                },
            }
        },
    }
}

/// The answers `found` and `eo` are ones the searches of a start of `id` can
/// give: the port search's, and, when it launches, those of its env.
pub open spec fn start_searched<F: Fn(u16) -> bool>(
    f: F,
    m: ProcessManager,
    id: Seq<char>,
    files: Seq<(Seq<char>, Seq<char>)>,
    found: Option<u16>,
    eo: Seq<Seq<Option<u16>>>,
) -> bool {
    &&& port_searched(f, m.processes(), m.entries(), m.groups_view(), id, found)
    &&& match start_port(m.processes(), m.entries(), m.groups_view(), id, found) {
        Some(p) => start_outcome(m, id, files, found, eo) matches Ok(Some(_)) ==> {
            let es2 = port_assigned(m.entries(), id, Some(p));
            let t2 = port_set(m.processes(), id, p);
            env_searched(f, t2[id].0.env, launch_ctx(t2, es2, id, p), files, running_ids_of(es2), eo)
        },
        None => true,
    }
}

/// The table after a start of `id`: the port assigned (once one was
/// found), and the status starting when it launches.
pub open spec fn start_table(
    m: ProcessManager,
    id: Seq<char>,
    files: Seq<(Seq<char>, Seq<char>)>,
    found: Option<u16>,
) -> Map<Seq<char>, (ProjectView, StatusView)> {
    match start_port(m.processes(), m.entries(), m.groups_view(), id, found) {
        None => m.processes(),
        Some(p) => {
            let t2 = port_set(m.processes(), id, p);
            if start_outcome(m, id, files, found, Seq::empty()) matches Ok(Some(_)) {
                status_set(t2, id, StatusView::Starting)
            } else {
                t2
            }
        },
    }
}

pub open spec fn outcome_view(r: Result<Option<LaunchPlan>, String>) -> Result<
    Option<LaunchView>,
    Seq<char>,
> {
    match r {
        Ok(Some(plan)) => Ok(Some(plan.view())),
        Ok(None) => Ok(None),
        Err(e) => Err(e@),
    }
}

fn strip_engine(id: &str) -> (r: Option<String>)
    ensures
        match r {
            Some(s) => engine_parent(id@) == Some(s@),
            None => engine_parent(id@).is_none(),
        },
{
    let c = chars_of(id);
    if starts_with_str(c.as_slice(), "engine:") {
        proof {
            reveal_strlit("engine:");
        }
        let rest = slice_vec(c.as_slice(), 7, c.len());
        assert(rest@ =~= id@.skip(7));
        Some(string_of(rest.as_slice()))
    } else {
        None
    }
}

impl ProcessManager {
    fn all_ports(&self) -> (r: Vec<u16>)
        ensures
            r@ == ports_in(self.entries()),
    {
        let ghost es = self.entries();
        let mut r: Vec<u16> = Vec::new();
        let mut i: usize = 0;
        while i < self.processes.len()
            invariant
                i <= self.processes@.len(),
                es == self.entries(),
                es.len() == self.processes@.len(),
                r@ == ports_in(es.take(i as int)),
            decreases self.processes@.len() - i,
        {
            proof {
                assert(es.take(i + 1).drop_last() =~= es.take(i as int));
                assert(es.take(i + 1).last() == self.processes@[i as int]@);
            }
            match self.processes[i].config.port {
                Some(p) => r.push(p),
                None => {},
            }
            i = i + 1;
        }
        assert(es.take(es.len() as int) =~= es);
        r
    }

    fn ports_besides(&self, id: &str) -> (r: Vec<u16>)
        ensures
            r@ == ports_besides(self.entries(), id@),
    {
        let ghost es = self.entries();
        let key = chars_of(id);
        let mut r: Vec<u16> = Vec::new();
        let mut i: usize = 0;
        while i < self.processes.len()
            invariant
                i <= self.processes@.len(),
                key@ == id@,
                es == self.entries(),
                es.len() == self.processes@.len(),
                r@ == ports_besides(es.take(i as int), id@),
            decreases self.processes@.len() - i,
        {
            proof {
                assert(es.take(i + 1).drop_last() =~= es.take(i as int));
                assert(es.take(i + 1).last() == self.processes@[i as int]@);
            }
            match self.processes[i].config.port {
                Some(p) => {
                    if !crate::text::seq_eq(
                        chars_of(self.processes[i].config.id.as_str()).as_slice(),
                        key.as_slice(),
                    ) {
                        r.push(p);
                    }
                },
                None => {},
            }
            i = i + 1;
        }
        assert(es.take(es.len() as int) =~= es);
        r
    }

    fn start_port_of<F: Fn(u16) -> bool>(&self, id: &str, port_free: &F) -> (r: (Option<u16>, Ghost<Option<u16>>))
        requires
            self.wf(),
            forall|p: u16| call_requires(*port_free, (p,)),
        ensures
            port_searched(*port_free, self.processes(), self.entries(), self.groups_view(), id@, r.1@),
            r.0 == start_port(self.processes(), self.entries(), self.groups_view(), id@, r.1@),
    {
        let own = self.project_port(id);
        if own.is_some() {
            return (own, Ghost(None));
        }
        match strip_engine(id) {
            Some(parent) => {
                let (fixed, pp) = match index_of(&self.processes, chars_of(parent.as_str()).as_slice()) {
                    Some(i) => {
                        proof {
                            lemma_table_at(self.processes@, i as int);
                        }
                        let c = &self.processes[i].config;
                        let fixed = match &c.backend {
                            Some(b) => b.port,
                            None => None,
                        };
                        (fixed, c.port)
                    },
                    None => (None, None),
                };
                if fixed.is_some() {
                    return (fixed, Ghost(None));
                }
                let base: u32 = match pp {
                    Some(x) => x as u32 + 1,
                    None => 3001,
                };
                if base > 65535 {
                    return (None, Ghost(None));
                }
                let skip = self.all_ports();
                let found = find_available_port(base as u16, skip.as_slice(), port_free);
                (found, Ghost(found))
            },
            None => {
                let standalone = self.find_group_for_project(id).is_none();
                assert(standalone == in_no_group(self.groups_view(), id@));
                let base: u16 = if standalone {
                    5173
                } else {
                    3000
                };
                let skip = self.ports_besides(id);
                let found = find_available_port(base, skip.as_slice(), port_free);
                (found, Ghost(found))
            },
        }
    }

    /// The first process other than `id` running on `p`, by name.
    fn holder_name(&self, id: &str, p: u16) -> (r: Option<String>)
        ensures
            match r {
                Some(n) => port_holder(self.entries(), id@, p) matches Some(h) && n@ == name_of(h),
                None => port_holder(self.entries(), id@, p).is_none(),
            },
    {
        let ghost es = self.entries();
        let key = chars_of(id);
        let mut i: usize = 0;
        assert(es.skip(0) =~= es);
        while i < self.processes.len()
            invariant
                i <= self.processes@.len(),
                key@ == id@,
                es == self.entries(),
                es.len() == self.processes@.len(),
                port_holder(es, id@, p) == port_holder(es.skip(i as int), id@, p),
            decreases self.processes@.len() - i,
        {
            let h = &self.processes[i];
            proof {
                assert(es.skip(i as int)[0] == h@);
                assert(es.skip(i as int).drop_first() =~= es.skip(i + 1));
            }
            let other = !crate::text::seq_eq(chars_of(h.config.id.as_str()).as_slice(), key.as_slice());
            let running = match h.status {
                ProcessStatus::Running(_) => true,
                _ => false,
            };
            if other && h.config.port == Some(p) && running {
                return Some(h.config.get_name());
            }
            i = i + 1;
        }
        None
    }

    pub(crate) fn launch_ctx_of(&self, id: &str, p: u16) -> (c: EnvCtx)
        requires
            self.wf(),
        ensures
            c.view() == launch_ctx(self.processes(), self.entries(), id@, p),
            c.resolved.pairs().len() == 0,
    {
        let used = self.all_ports();
        match strip_engine(id) {
            Some(parent) => {
                let (path, pp) = match index_of(&self.processes, chars_of(parent.as_str()).as_slice()) {
                    Some(i) => {
                        proof {
                            lemma_table_at(self.processes@, i as int);
                        }
                        (self.processes[i].config.path.clone(), self.processes[i].config.port)
                    },
                    None => (String::new(), None),
                };
                EnvCtx {
                    id: parent,
                    path,
                    port: Some(p),
                    parent_port: pp,
                    backend_port: None,
                    used_ports: used,
                    resolved: EnvVars::new(),
                }
            },
            None => {
                let path = match index_of(&self.processes, chars_of(id).as_slice()) {
                    Some(i) => {
                        proof {
                            lemma_table_at(self.processes@, i as int);
                        }
                        self.processes[i].config.path.clone()
                    },
                    None => String::new(),
                };
                let mut e = chars_of("engine:");
                append_chars(&mut e, chars_of(id).as_slice());
                let bp = self.project_port(string_of(e.as_slice()).as_str());
                EnvCtx {
                    id: crate::text::copy_str(id),
                    path,
                    port: Some(p),
                    parent_port: None,
                    backend_port: bp,
                    used_ports: used,
                    resolved: EnvVars::new(),
                }
            },
        }
    }

    /// Take the start decisions for `id` (its dependencies are started
    /// first, by the caller): assign its port (recorded in the table even
    /// when the start then fails), refuse a port held by another running
    /// process, skip an unknown or running process, refuse one without a
    /// command, else mark it starting, clear its log and return how to
    /// launch it. `files` holds the text of the env files that could be read,
    /// by the name the env specs give them; `port_free` says whether a port
    /// can be bound.
    pub fn prepare_start<F: Fn(u16) -> bool>(
        &mut self,
        id: &str,
        files: &[(String, String)],
        port_free: &F,
    ) -> (r: Result<Option<LaunchPlan>, String>)
        requires
            old(self).wf(),
            old(self).rev_of(id@) < u64::MAX,
            forall|p: u16| call_requires(*port_free, (p,)),
        ensures
            final(self).wf(),
            exists|found: Option<u16>, eo: Seq<Seq<Option<u16>>>|
                start_searched(*port_free, *old(self), id@, pair_views(files@), found, eo)
                    && outcome_view(r) == start_outcome(*old(self), id@, pair_views(files@), found, eo)
                    && final(self).processes() == start_table(*old(self), id@, pair_views(files@), found),
            r matches Ok(Some(_)) ==> final(self).logs_of(id@).len() == 0 && final(self).rev_of(id@)
                == old(self).rev_of(id@) + 1,
            !(r matches Ok(Some(_))) ==> final(self).log_store() == old(self).log_store()
                && final(self).modes() == old(self).modes(),
            forall|k: Seq<char>| k != id@ ==> #[trigger] final(self).logs_of(k) == old(self).logs_of(k),
            forall|k: Seq<char>| k != id@ ==> #[trigger] final(self).rev_of(k) == old(self).rev_of(k),
            forall|k: Seq<char>| #[trigger] final(self).host_on(k) == old(self).host_on(k),
            forall|k: Seq<char>| #[trigger] final(self).prod_on(k) == old(self).prod_on(k),
            final(self).templates_view() == old(self).templates_view(),
            final(self).groups_view() == old(self).groups_view(),
            final(self).root() == old(self).root(),
    {
        let ghost m = *self;
        let (r, found, eo) = self.start_decisions(id, files, port_free);
        assert(start_searched(*port_free, m, id@, pair_views(files@), found@, eo@));
        r
    }

    fn start_decisions<F: Fn(u16) -> bool>(
        &mut self,
        id: &str,
        files: &[(String, String)],
        port_free: &F,
    ) -> (r: (Result<Option<LaunchPlan>, String>, Ghost<Option<u16>>, Ghost<Seq<Seq<Option<u16>>>>))
        requires
            old(self).wf(),
            old(self).rev_of(id@) < u64::MAX,
            forall|p: u16| call_requires(*port_free, (p,)),
        ensures
            final(self).wf(),
            start_searched(*port_free, *old(self), id@, pair_views(files@), r.1@, r.2@),
            outcome_view(r.0) == start_outcome(*old(self), id@, pair_views(files@), r.1@, r.2@),
            final(self).processes() == start_table(*old(self), id@, pair_views(files@), r.1@),
            r.0 matches Ok(Some(_)) ==> final(self).logs_of(id@).len() == 0 && final(self).rev_of(id@)
                == old(self).rev_of(id@) + 1,
            !(r.0 matches Ok(Some(_))) ==> final(self).log_store() == old(self).log_store()
                && final(self).modes() == old(self).modes(),
            forall|k: Seq<char>| k != id@ ==> #[trigger] final(self).logs_of(k) == old(self).logs_of(k),
            forall|k: Seq<char>| k != id@ ==> #[trigger] final(self).rev_of(k) == old(self).rev_of(k),
            forall|k: Seq<char>| #[trigger] final(self).host_on(k) == old(self).host_on(k),
            forall|k: Seq<char>| #[trigger] final(self).prod_on(k) == old(self).prod_on(k),
            final(self).templates_view() == old(self).templates_view(),
            final(self).groups_view() == old(self).groups_view(),
            final(self).root() == old(self).root(),
    {
        let ghost m = *self;
        let ghost fv = pair_views(files@);
        let (sp, found) = self.start_port_of(id, port_free);
        let none_eo: Ghost<Seq<Seq<Option<u16>>>> = Ghost(Seq::empty());
        let port = match sp {
            None => {
                proof {
                    self.lemma_same_store(&m);
                }
                return (Err(crate::text::copy_str("No free port available")), found, none_eo);
            },
            Some(p) => p,
        };
        self.update_project_port(id, Some(port));
        proof {
            self.lemma_same_store(&m);
        }
        let ghost es2 = self.entries();
        let ghost t2 = self.processes();
        assert(t2 == port_set(m.processes(), id@, port));
        match self.holder_name(id, port) {
            Some(name) => {
                let mut msg = chars_of("Port ");
                push_decimal(&mut msg, port as u64);
                append_chars(&mut msg, chars_of(" is already in use by project ").as_slice());
                append_chars(&mut msg, chars_of(name.as_str()).as_slice());
                return (Err(string_of(msg.as_slice())), found, none_eo);
            },
            None => {},
        }
        let key = chars_of(id);
        let i = match index_of(&self.processes, key.as_slice()) {
            None => {
                return (Ok(None), found, none_eo);
            },
            Some(i) => i,
        };
        proof {
            lemma_table_at(self.processes@, i as int);
        }
        match self.processes[i].status {
            ProcessStatus::Running(_) => {
                return (Ok(None), found, none_eo);
            },
            _ => {},
        }
        if self.processes[i].config.env_only || self.processes[i].config.command.is_none() {
            let mut msg = chars_of("Project ");
            append_chars(&mut msg, chars_of(self.processes[i].config.get_name().as_str()).as_slice());
            append_chars(&mut msg, chars_of(" is set to env_only or has no command").as_slice());
            return (Err(string_of(msg.as_slice())), found, none_eo);
        }
        // the environment, resolved against the table with the port assigned
        let specs = copy_env_specs(&self.processes[i].config.env);
        let ctx = self.launch_ctx_of(id, port);
        let running = self.running_ids();
        assert(string_seq_views(running@) =~= crate::config::strs(running@));
        let env = resolve_env(specs.as_slice(), &ctx, files, running.as_slice(), port_free);
        let ghost eo = choose|o: Seq<Seq<Option<u16>>>|
            env_searched(
                *port_free,
                env_views(specs@),
                ctx.view(),
                fv,
                string_seq_views(running@),
                o,
            ) && env.pairs() == env_fold(
                env_views(specs@),
                0,
                ctx.view(),
                ctx.resolved.pairs(),
                Seq::empty(),
                fv,
                string_seq_views(running@),
                o,
            );
        assert(ctx.resolved.pairs() =~= Seq::<(Seq<char>, Seq<char>)>::empty());
        // the command line and directory
        let raw = match &self.processes[i].config.command {
            Some(c) => c.clone(),
            None => String::new(),
        };
        let host_id = match strip_engine(id) {
            Some(parent) => parent,
            None => crate::text::copy_str(id),
        };
        let host = self.is_host_mode(host_id.as_str());
        let prod = self.is_prod_mode(id);
        let (command, host_env) = command_for_launch(raw.as_str(), host, prod);
        let work_dir = absolutize(self.root_dir.as_str(), self.processes[i].config.path.as_str());
        let plan = LaunchPlan { command, host_env, port, env, work_dir };
        assert(plan.view() == launch_view(m, t2, es2, id@, port, fv, eo));
        // the log starts over
        kv_set(&mut self.logs, crate::text::copy_str(id), Vec::new());
        assert(crate::config::strs(Seq::<String>::empty()) =~= Seq::<Seq<char>>::empty());
        let ghost before = *self;
        proof {
            assert(before.modes() == m.modes());
            before.lemma_same_modes(&m);
        }
        self.bump_log_rev(id);
        let ghost bumped = *self;
        self.set_status(id, ProcessStatus::Starting);
        proof {
            self.lemma_same_store(&bumped);
        }
        (Ok(Some(plan)), found, Ghost(eo))
    }
}

} // verus!
