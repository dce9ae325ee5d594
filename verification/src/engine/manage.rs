//! Edits of the process table, templates, modes and logs.
use super::{
    index_of, replace_at, table, ProcessHandle, ProcessManager, ProcessStatus, StatusView,
};
use crate::config::{strs, ProjectView, Template, TemplateView};
use crate::keyed::{kv_find, kv_get, kv_set};
use crate::text::{chars_of, seq_eq};
use vstd::prelude::*;

verus! {

/// `p` with its port replaced.
pub open spec fn with_port(p: ProjectView, port: Option<u16>) -> ProjectView {
    ProjectView {
        id: p.id,
        name: p.name,
        path: p.path,
        port,
        command: p.command,
        env_only: p.env_only,
        category: p.category,
        deps: p.deps,
        backend: p.backend,
        env: p.env,
    }
}

/// `p` with its category replaced.
pub open spec fn with_category(p: ProjectView, category: Option<Seq<char>>) -> ProjectView {
    ProjectView {
        id: p.id,
        name: p.name,
        path: p.path,
        port: p.port,
        command: p.command,
        env_only: p.env_only,
        category,
        deps: p.deps,
        backend: p.backend,
        env: p.env,
    }
}

/// The entries with the port of `id` replaced.
pub open spec fn port_assigned(
    es: Seq<(ProjectView, StatusView)>,
    id: Seq<char>,
    port: Option<u16>,
) -> Seq<(ProjectView, StatusView)> {
    es.map_values(
        |e: (ProjectView, StatusView)|
            if e.0.id == id {
                (with_port(e.0, port), e.1)
            } else {
                e
            },
    )
}

/// The table with the entry `id` (if any) replaced by `e`.
pub open spec fn edited(
    t: Map<Seq<char>, (ProjectView, StatusView)>,
    id: Seq<char>,
    e: (ProjectView, StatusView),
) -> Map<Seq<char>, (ProjectView, StatusView)> {
    if t.contains_key(id) {
        t.insert(id, e)
    } else {
        t
    }
}

/// The most log lines kept in memory per process.
pub const LOG_CAPACITY: usize = 1000;

/// `lines` after appending `line` to a buffer that keeps the newest
/// `LOG_CAPACITY` lines.
pub open spec fn log_appended(lines: Seq<Seq<char>>, line: Seq<char>) -> Seq<Seq<char>> {
    if lines.len() + 1 > LOG_CAPACITY {
        lines.push(line).drop_first()
    } else {
        lines.push(line)
    }
}

/// A log buffer never holds more than `LOG_CAPACITY` lines: appending to a
/// full buffer drops its oldest line, and the newest line is always the one
/// appended, after the lines that were kept in their order.
pub proof fn law_log_buffer_keeps_newest(lines: Seq<Seq<char>>, line: Seq<char>)
    requires
        lines.len() <= LOG_CAPACITY,
    ensures
        log_appended(lines, line).len() <= LOG_CAPACITY,
        log_appended(lines, line).last() == line,
        log_appended(lines, line) == lines.push(line).skip(
            lines.push(line).len() - log_appended(lines, line).len(),
        ),
{
    let p = lines.push(line);
    if lines.len() + 1 > LOG_CAPACITY {
        assert(p.drop_first() =~= p.skip(1));
    } else {
        assert(p.skip(0) =~= p);
    }
}

/// `after` is `before` with prod mode of `id` flipped and every other
/// project's mode kept.
pub open spec fn prod_toggled(before: ProcessManager, after: ProcessManager, id: Seq<char>) -> bool {
    &&& after.prod_on(id) == !before.prod_on(id)
    &&& forall|k: Seq<char>| k != id ==> #[trigger] after.prod_on(k) == before.prod_on(k)
}

/// Toggling prod mode of the same project twice restores every project's
/// mode.
pub proof fn law_prod_toggle_twice_restores(
    a: ProcessManager,
    b: ProcessManager,
    c: ProcessManager,
    id: Seq<char>,
)
    requires
        prod_toggled(a, b, id),
        prod_toggled(b, c, id),
    ensures
        forall|k: Seq<char>| #[trigger] c.prod_on(k) == a.prod_on(k),
{
    assert forall|k: Seq<char>| #[trigger] c.prod_on(k) == a.prod_on(k) by {
        if k != id {
            assert(b.prod_on(k) == a.prod_on(k));
        }
    }
}

/// The index of the first template named `name`.
pub open spec fn first_named(ts: Seq<TemplateView>, name: Seq<char>, i: int) -> bool {
    0 <= i < ts.len() && ts[i].name == name && forall|j: int|
        0 <= j < i ==> (#[trigger] ts[j]).name != name
}

fn find_template(ts: &Vec<Template>, name: &str) -> (r: Option<usize>)
    ensures
        match r {
            Some(i) => first_named(super::template_views(ts@), name@, i as int),
            None => forall|j: int|
                0 <= j < ts@.len() ==> (#[trigger] super::template_views(ts@)[j]).name != name@,
        },
{
    let nc = chars_of(name);
    let mut i: usize = 0;
    while i < ts.len()
        invariant
            i <= ts@.len(),
            nc@ == name@,
            forall|j: int| 0 <= j < i ==> (#[trigger] super::template_views(ts@)[j]).name != name@,
        decreases ts@.len() - i,
    {
        assert(super::template_views(ts@)[i as int] == ts@[i as int]@);
        if seq_eq(chars_of(ts[i].name.as_str()).as_slice(), nc.as_slice()) {
            return Some(i);
        }
        i = i + 1;
    }
    None
}

fn contains_string(v: &Vec<String>, s: &str) -> (r: bool)
    ensures
        r == strs(v@).contains(s@),
{
    let sc = chars_of(s);
    let mut i: usize = 0;
    while i < v.len()
        invariant
            i <= v@.len(),
            sc@ == s@,
            forall|j: int| 0 <= j < i ==> (#[trigger] strs(v@)[j]) != s@,
        decreases v@.len() - i,
    {
        if seq_eq(chars_of(v[i].as_str()).as_slice(), sc.as_slice()) {
            assert(strs(v@)[i as int] == s@);
            return true;
        }
        i = i + 1;
    }
    false
}

/// What a host-mode toggle asks of the firewall.
#[derive(Clone, Copy, Debug, PartialEq, Eq, Structural)]
pub enum HostRule {
    /// Accept connections to this port.
    Open(u16),
    /// Drop the rule for this port.
    Close(u16),
    Nothing,
}

/// The firewall step of a host-mode toggle of `id` in table `t`, its mode
/// now `on`.
pub open spec fn host_rule_of(t: Map<Seq<char>, (ProjectView, StatusView)>, on: bool, id: Seq<char>) -> HostRule {
    let port = if t.contains_key(id) {
        t[id].0.port
    } else {
        None
    };
    match port {
        Some(p) => if !on {
            HostRule::Open(p)
        } else {
            HostRule::Close(p)
        },
        None => HostRule::Nothing,
    }
}

impl ProcessManager {
    /// Set (or clear) the port of process `id`.
    pub fn update_project_port(&mut self, id: &str, port: Option<u16>)
        requires
            old(self).wf(),
        ensures
            final(self).wf(),
            final(self).processes() == edited(
                old(self).processes(),
                id@,
                (with_port(old(self).processes()[id@].0, port), old(self).processes()[id@].1),
            ),
            final(self).entries() == port_assigned(old(self).entries(), id@, port),
            final(self).templates_view() == old(self).templates_view(),
            final(self).groups_view() == old(self).groups_view(),
            final(self).root() == old(self).root(),
            final(self).modes() == old(self).modes(),
            final(self).log_store() == old(self).log_store(),
    {
        let key = chars_of(id);
        match index_of(&self.processes, key.as_slice()) {
            Some(i) => {
                let ghost o = self.processes@;
                let mut h = self.processes[i].copy();
                h.config.port = port;
                proof {
                    super::lemma_table_at(self.processes@, i as int);
                }
                replace_at(&mut self.processes, i, h);
                proof {
                    let es = super::handle_views(o);
                    assert forall|j: int| 0 <= j < es.len() implies #[trigger] self.entries()[j]
                        == port_assigned(es, id@, port)[j] by {
                        if j != i {
                            if super::hid(o[j]) == id@ {
                                super::lemma_sorted_unique(o, i as int, j);
                            }
                        }
                    }
                    assert(self.entries() =~= port_assigned(es, id@, port));
                }
            },
            None => {
                proof {
                    let es = super::handle_views(self.processes@);
                    assert forall|j: int| 0 <= j < es.len() implies #[trigger] es[j]
                        == port_assigned(es, id@, port)[j] by {
                        assert(super::hid(self.processes@[j]) != id@);
                    }
                    assert(es =~= port_assigned(es, id@, port));
                }
            },
        }
    }

    /// Set (or clear) the category of process `id`.
    pub fn update_project_category(&mut self, id: &str, category: Option<String>)
        requires
            old(self).wf(),
        ensures
            final(self).wf(),
            final(self).processes() == edited(
                old(self).processes(),
                id@,
                (
                    with_category(old(self).processes()[id@].0, crate::config::opt_str(category)),
                    old(self).processes()[id@].1,
                ),
            ),
            final(self).templates_view() == old(self).templates_view(),
            final(self).groups_view() == old(self).groups_view(),
            final(self).root() == old(self).root(),
            final(self).modes() == old(self).modes(),
            final(self).log_store() == old(self).log_store(),
    {
        let key = chars_of(id);
        match index_of(&self.processes, key.as_slice()) {
            Some(i) => {
                let mut h = self.processes[i].copy();
                h.config.category = category;
                proof {
                    super::lemma_table_at(self.processes@, i as int);
                }
                replace_at(&mut self.processes, i, h);
            },
            None => {},
        }
    }

    /// Remove every template named `name`.
    pub fn delete_template(&mut self, name: &str)
        ensures
            final(self).templates_view() == old(self).templates_view().filter(
                |t: TemplateView| t.name != name@,
            ),
            final(self).processes() == old(self).processes(),
            final(self).groups_view() == old(self).groups_view(),
            final(self).root() == old(self).root(),
            final(self).modes() == old(self).modes(),
            final(self).log_store() == old(self).log_store(),
            final(self).wf() == old(self).wf(),
    {
        let ghost f = |t: TemplateView| t.name != name@;
        let ghost tv = self.templates_view();
        let nc = chars_of(name);
        let mut kept: Vec<Template> = Vec::new();
        let mut i: usize = 0;
        while i < self.templates.len()
            invariant
                i <= self.templates@.len(),
                nc@ == name@,
                tv == super::template_views(self.templates@),
                f == (|t: TemplateView| t.name != name@),
                super::template_views(kept@) == tv.take(i as int).filter(f),
            decreases self.templates@.len() - i,
        {
            let t = &self.templates[i];
            let ghost before = kept@;
            proof {
                assert(tv.take(i + 1).drop_last() =~= tv.take(i as int));
                assert(tv[i as int] == t@);
                reveal_with_fuel(Seq::filter, 1);
            }
            if !seq_eq(chars_of(t.name.as_str()).as_slice(), nc.as_slice()) {
                kept.push(t.copy());
                assert(super::template_views(kept@) =~= super::template_views(before).push(t@));
            }
            i = i + 1;
        }
        assert(tv.take(tv.len() as int) =~= tv);
        self.templates = kept;
    }

    /// Add an empty template named `name`.
    pub fn create_template(&mut self, name: String)
        ensures
            final(self).templates_view() == old(self).templates_view().push(
                TemplateView { name: name@, projects: Seq::empty() },
            ),
            final(self).processes() == old(self).processes(),
            final(self).groups_view() == old(self).groups_view(),
            final(self).root() == old(self).root(),
            final(self).modes() == old(self).modes(),
            final(self).log_store() == old(self).log_store(),
            final(self).wf() == old(self).wf(),
    {
        let t = Template { name, projects: Vec::new() };
        let ghost before = self.templates@;
        self.templates.push(t);
        assert(strs(Seq::<String>::empty()) =~= Seq::<Seq<char>>::empty());
        assert(super::template_views(self.templates@) =~= super::template_views(before).push(t@));
    }

    /// Add `project_id` to the first template named `template_name`, unless
    /// it is already listed there; `Err("Template not found")` when there is
    /// no such template.
    pub fn add_to_template(&mut self, template_name: &str, project_id: String) -> (r: Result<(), String>)
        ensures
            match r {
                Ok(()) => exists|i: int|
                    first_named(old(self).templates_view(), template_name@, i)
                        && final(self).templates_view() == old(self).templates_view().update(
                        i,
                        TemplateView {
                            name: old(self).templates_view()[i].name,
                            projects: if old(self).templates_view()[i].projects.contains(project_id@) {
                                old(self).templates_view()[i].projects
                            } else {
                                old(self).templates_view()[i].projects.push(project_id@)
                            },
                        },
                    ),
                Err(e) => e@ == "Template not found"@ && final(self).templates_view()
                    == old(self).templates_view() && forall|j: int|
                    0 <= j < old(self).templates_view().len() ==> (#[trigger] old(
                        self,
                    ).templates_view()[j]).name != template_name@,
            },
            final(self).processes() == old(self).processes(),
            final(self).groups_view() == old(self).groups_view(),
            final(self).root() == old(self).root(),
            final(self).modes() == old(self).modes(),
            final(self).log_store() == old(self).log_store(),
            final(self).wf() == old(self).wf(),
    {
        match find_template(&self.templates, template_name) {
            None => Err(crate::text::copy_str("Template not found")),
            Some(i) => {
                let ghost before = self.templates@;
                let ghost tv0 = self.templates_view();
                let mut t = self.templates[i].copy();
                assert(t@ == tv0[i as int]);
                let ghost pid = project_id@;
                if !contains_string(&t.projects, project_id.as_str()) {
                    let ghost ps = t.projects@;
                    t.projects.push(project_id);
                    assert(strs(t.projects@) =~= strs(ps).push(project_id@));
                }
                self.templates.set(i, t);
                assert(super::template_views(self.templates@) =~= super::template_views(
                    before,
                ).update(i as int, t@));
                assert(t@ == TemplateView {
                    name: tv0[i as int].name,
                    projects: if tv0[i as int].projects.contains(pid) {
                        tv0[i as int].projects
                    } else {
                        tv0[i as int].projects.push(pid)
                    },
                });
                assert(first_named(tv0, template_name@, i as int));
                Ok(())
            },
        }
    }

    /// The projects of the first template named `template_name`, which are
    /// started in order; `Err("Template <name> not found")` when there is
    /// no such template.
    pub fn run_template(&self, template_name: &str) -> (r: Result<Vec<String>, String>)
        ensures
            match r {
                Ok(ids) => exists|i: int|
                    first_named(self.templates_view(), template_name@, i) && strs(ids@)
                        == self.templates_view()[i].projects,
                Err(e) => e@ == "Template "@ + template_name@ + " not found"@ && forall|j: int|
                    0 <= j < self.templates_view().len() ==> (#[trigger] self.templates_view()[j]).name
                        != template_name@,
            },
    {
        match find_template(&self.templates, template_name) {
            None => {
                let mut msg = chars_of("Template ");
                crate::text::append_chars(&mut msg, chars_of(template_name).as_slice());
                crate::text::append_chars(&mut msg, chars_of(" not found").as_slice());
                Err(crate::text::string_of(msg.as_slice()))
            },
            Some(i) => {
                let ids = crate::config::copy_strs(&self.templates[i].projects);
                assert(self.templates_view()[i as int] == self.templates@[i as int]@);
                assert(first_named(self.templates_view(), template_name@, i as int));
                Ok(ids)
            },
        }
    }

    /// The log revision of `id` (0 when it never changed).
    pub fn get_log_rev(&self, id: &str) -> (r: u64)
        ensures
            r == self.rev_of(id@),
    {
        match kv_find(&self.log_rev, id) {
            Some(i) => self.log_rev[i].1,
            None => 0,
        }
    }

    /// Count one more change of `id`'s log.
    pub fn bump_log_rev(&mut self, id: &str)
        requires
            old(self).rev_of(id@) < u64::MAX,
        ensures
            final(self).rev_of(id@) == old(self).rev_of(id@) + 1,
            forall|k: Seq<char>| k != id@ ==> #[trigger] final(self).rev_of(k) == old(self).rev_of(k),
            forall|k: Seq<char>| #[trigger] final(self).host_on(k) == old(self).host_on(k),
            forall|k: Seq<char>| #[trigger] final(self).prod_on(k) == old(self).prod_on(k),
            final(self).processes() == old(self).processes(),
            final(self).templates_view() == old(self).templates_view(),
            final(self).groups_view() == old(self).groups_view(),
            final(self).root() == old(self).root(),
            final(self).log_store() == old(self).log_store(),
            final(self).wf() == old(self).wf(),
    {
        let n = self.get_log_rev(id);
        kv_set(&mut self.log_rev, crate::text::copy_str(id), n + 1);
    }

    /// The in-memory log lines of `id`; none when `id` is not registered.
    pub fn get_logs(&self, id: &str) -> (r: Vec<String>)
        requires
            self.wf(),
        ensures
            strs(r@) == if self.processes().contains_key(id@) {
                self.logs_of(id@)
            } else {
                Seq::empty()
            },
    {
        let key = chars_of(id);
        match index_of(&self.processes, key.as_slice()) {
            None => {
                assert(!self.processes().contains_key(id@));
                assert(strs(Seq::<String>::empty()) =~= Seq::<Seq<char>>::empty());
                Vec::new()
            },
            Some(i) => {
                proof {
                    super::lemma_table_at(self.processes@, i as int);
                }
                match kv_find(&self.logs, id) {
                    Some(j) => crate::config::copy_strs(&self.logs[j].1),
                    None => {
                        assert(strs(Seq::<String>::empty()) =~= Seq::<Seq<char>>::empty());
                        Vec::new()
                    },
                }
            },
        }
    }

    /// Record a line of output of `id`: kept in its buffer (newest
    /// `LOG_CAPACITY` lines) while `id` is registered; the revision of `id`
    /// counts the change.
    pub fn append_log(&mut self, id: &str, line: String)
        requires
            old(self).wf(),
            old(self).rev_of(id@) < u64::MAX,
        ensures
            final(self).wf(),
            final(self).logs_of(id@) == if old(self).processes().contains_key(id@) {
                log_appended(old(self).logs_of(id@), line@)
            } else {
                old(self).logs_of(id@)
            },
            forall|k: Seq<char>| k != id@ ==> #[trigger] final(self).logs_of(k) == old(self).logs_of(k),
            final(self).rev_of(id@) == old(self).rev_of(id@) + 1,
            forall|k: Seq<char>| k != id@ ==> #[trigger] final(self).rev_of(k) == old(self).rev_of(k),
            forall|k: Seq<char>| #[trigger] final(self).host_on(k) == old(self).host_on(k),
            forall|k: Seq<char>| #[trigger] final(self).prod_on(k) == old(self).prod_on(k),
            final(self).processes() == old(self).processes(),
            final(self).templates_view() == old(self).templates_view(),
            final(self).groups_view() == old(self).groups_view(),
            final(self).root() == old(self).root(),
    {
        let key = chars_of(id);
        let registered = index_of(&self.processes, key.as_slice()).is_some();
        proof {
            if self.processes().contains_key(id@) {
                let j = choose|j: int|
                    0 <= j < self.processes@.len() && #[trigger] super::hid(self.processes@[j]) == id@;
                assert(super::has_id(self.processes@, id@));
            }
        }
        if registered {
            let mut lines: Vec<String> = match kv_find(&self.logs, id) {
                Some(j) => crate::config::copy_strs(&self.logs[j].1),
                None => Vec::new(),
            };
            let ghost old_lines = strs(lines@);
            assert(old_lines == old(self).logs_of(id@)) by {
                assert(strs(Seq::<String>::empty()) =~= Seq::<Seq<char>>::empty());
            }
            lines.push(line);
            assert(strs(lines@) =~= old_lines.push(line@));
            if lines.len() > LOG_CAPACITY {
                let ghost pushed = lines@;
                lines.remove(0);
                assert(strs(lines@) =~= strs(pushed).drop_first());
            }
            kv_set(&mut self.logs, crate::text::copy_str(id), lines);
        }
        self.bump_log_rev(id);
    }

    /// Whether `id` is in host mode.
    pub fn is_host_mode(&self, id: &str) -> (r: bool)
        ensures
            r == self.host_on(id@),
    {
        match kv_find(&self.host_mode, id) {
            Some(i) => self.host_mode[i].1,
            None => false,
        }
    }

    /// What a host-mode toggle of `id` asks of the firewall: open its port
    /// when the mode goes on, close it when it goes off; nothing when it has
    /// no port.
    pub fn host_toggle_rule(&self, id: &str) -> (r: HostRule)
        requires
            self.wf(),
        ensures
            r == host_rule_of(self.processes(), self.host_on(id@), id@),
    {
        let on = !self.is_host_mode(id);
        match self.project_port(id) {
            Some(p) => if on {
                HostRule::Open(p)
            } else {
                HostRule::Close(p)
            },
            None => HostRule::Nothing,
        }
    }

    /// Finish a host-mode toggle of `id` once the firewall did its part:
    /// `opened` is how opening the port went (`Ok` when none was to be
    /// opened). When it failed the mode stays as it was and the failure is
    /// returned; else the mode flips and its new value is returned.
    pub fn finish_host_toggle(&mut self, id: &str, opened: Result<(), String>) -> (r: Result<bool, String>)
        ensures
            match opened {
                Err(e) => r == Err::<bool, String>(e) && *final(self) == *old(self),
                Ok(_) => {
                    &&& r == Ok::<bool, String>(!old(self).host_on(id@))
                    &&& final(self).host_on(id@) == !old(self).host_on(id@)
                    &&& forall|k: Seq<char>| k != id@ ==> #[trigger] final(self).host_on(k) == old(self).host_on(k)
                    &&& forall|k: Seq<char>| #[trigger] final(self).prod_on(k) == old(self).prod_on(k)
                    &&& forall|k: Seq<char>| #[trigger] final(self).rev_of(k) == old(self).rev_of(k)
                    &&& final(self).processes() == old(self).processes()
                    &&& final(self).templates_view() == old(self).templates_view()
                    &&& final(self).groups_view() == old(self).groups_view()
                    &&& final(self).root() == old(self).root()
                    &&& final(self).log_store() == old(self).log_store()
                    &&& final(self).wf() == old(self).wf()
                },
            },
    {
        match opened {
            Err(e) => Err(e),
            Ok(()) => {
                let on = !self.is_host_mode(id);
                self.set_host_mode(id, on);
                Ok(on)
            },
        }
    }

    /// Put `id` in or out of host mode.
    pub fn set_host_mode(&mut self, id: &str, on: bool)
        ensures
            final(self).host_on(id@) == on,
            forall|k: Seq<char>| k != id@ ==> #[trigger] final(self).host_on(k) == old(self).host_on(k),
            forall|k: Seq<char>| #[trigger] final(self).prod_on(k) == old(self).prod_on(k),
            forall|k: Seq<char>| #[trigger] final(self).rev_of(k) == old(self).rev_of(k),
            final(self).processes() == old(self).processes(),
            final(self).templates_view() == old(self).templates_view(),
            final(self).groups_view() == old(self).groups_view(),
            final(self).root() == old(self).root(),
            final(self).log_store() == old(self).log_store(),
            final(self).wf() == old(self).wf(),
    {
        kv_set(&mut self.host_mode, crate::text::copy_str(id), on);
    }

    /// Whether `id` is in prod mode.
    pub fn is_prod_mode(&self, id: &str) -> (r: bool)
        ensures
            r == self.prod_on(id@),
    {
        match kv_find(&self.prod_mode, id) {
            Some(i) => self.prod_mode[i].1,
            None => false,
        }
    }

    /// Flip prod mode of `id`; the new setting is returned.
    pub fn toggle_prod_mode(&mut self, id: &str) -> (r: bool)
        ensures
            r == !old(self).prod_on(id@),
            final(self).prod_on(id@) == r,
            prod_toggled(*old(self), *final(self), id@),
            forall|k: Seq<char>| k != id@ ==> #[trigger] final(self).prod_on(k) == old(self).prod_on(k),
            forall|k: Seq<char>| #[trigger] final(self).host_on(k) == old(self).host_on(k),
            forall|k: Seq<char>| #[trigger] final(self).rev_of(k) == old(self).rev_of(k),
            final(self).processes() == old(self).processes(),
            final(self).templates_view() == old(self).templates_view(),
            final(self).groups_view() == old(self).groups_view(),
            final(self).root() == old(self).root(),
            final(self).log_store() == old(self).log_store(),
            final(self).wf() == old(self).wf(),
    {
        let new = !self.is_prod_mode(id);
        kv_set(&mut self.prod_mode, crate::text::copy_str(id), new);
        new
    }
}

} // verus!
