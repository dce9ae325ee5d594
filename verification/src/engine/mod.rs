//! The process table: which projects exist, their status, ports, groups,
//! templates and modes, and the decisions taken when starting and stopping.
use crate::config::{
    copy_opt, copy_strs, name_of, opt_str, strs, BackendSpec, BackendView, EnvSpec, Group,
    GroupView, Project, ProjectView, Template, TemplateView,
};
use crate::keyed::{kv_find, kv_get, kv_set};
use crate::text::{chars_of, less_chars, seq_less, string_of};
use vstd::prelude::*;

pub mod env;
pub mod files;
pub mod launch;
pub mod lifecycle;
pub mod manage;
pub mod start;
pub mod walk;

verus! {

// ── ports ──────────────────────────────────────────────────────────────────

/// Whether the port search from `start` tries port `p`: the start itself
/// and every port above it except 5000 (never tried as a successor).
pub open spec fn tried(start: int, p: int) -> bool {
    p == start || (start < p && p != 5000)
}

/// `r` is an answer the port search from `start` past `skip` can give when
/// `f` is asked about ports one at a time (`f` answers afresh on each call,
/// so two calls on one port may differ): a found port is tried, not skipped
/// and reported free, and every port tried before it was skipped or reported
/// busy; `None` when every port tried up to 65535 was skipped or reported
/// busy.
pub open spec fn port_search_result<F: Fn(u16) -> bool>(f: F, skip: Seq<u16>, start: int, r: Option<u16>) -> bool {
    match r {
        Some(q) => tried(start, q as int) && !skip.contains(q) && call_ensures(f, (q,), true)
            && forall|p: u16| #![trigger skip.contains(p)] tried(start, p as int) && p < q ==> skip.contains(p) || call_ensures(f, (p,), false),
        None => forall|p: u16| #![trigger skip.contains(p)] tried(start, p as int) ==> skip.contains(p) || call_ensures(f, (p,), false),
    }
}

/// Walk up from `start_port` to the first port that is not in `skip_ports`
/// and that `port_free` reports free. `None` if the walk would pass 65535.
pub fn find_available_port<F: Fn(u16) -> bool>(
    start_port: u16,
    skip_ports: &[u16],
    port_free: &F,
) -> (r: Option<u16>)
    requires
        forall|p: u16| call_requires(*port_free, (p,)),
    ensures
        port_search_result(*port_free, skip_ports@, start_port as int, r),
{
    let mut port: u16 = start_port;
    loop
        invariant
            forall|p: u16| call_requires(*port_free, (p,)),
            tried(start_port as int, port as int),
            forall|p: u16|
                #![trigger skip_ports@.contains(p)]
                tried(start_port as int, p as int) && p < port ==> skip_ports@.contains(p) || call_ensures(
                    *port_free,
                    (p,),
                    false,
                ),
        decreases 65536 - port,
    {
        let skipped = contains_port(skip_ports, port);
        let free = if skipped {
            false
        } else {
            port_free(port)
        };
        if !skipped && free {
            return Some(port);
        }
        if port == 65535 {
            return None;
        }
        port = port + 1;
        if port == 5000 {
            port = 5001;
        }
    }
}

pub fn contains_port(v: &[u16], p: u16) -> (r: bool)
    ensures
        r == v@.contains(p),
{
    let mut i: usize = 0;
    while i < v.len()
        invariant
            i <= v@.len(),
            forall|j: int| 0 <= j < i ==> v@[j] != p,
        decreases v@.len() - i,
    {
        if v[i] == p {
            assert(v@[i as int] == p);
            return true;
        }
        i = i + 1;
    }
    false
}

// ── the process table ─────────────────────────────────────────────────────

#[derive(Debug, Clone, PartialEq)]
pub enum ProcessStatus {
    Stopped,
    Starting,
    /// PID
    Running(u32),
    Crashed(String),
}

pub enum StatusView {
    Stopped,
    Starting,
    Running(u32),
    Crashed(Seq<char>),
}

impl View for ProcessStatus {
    type V = StatusView;

    open spec fn view(&self) -> StatusView {
        match self {
            ProcessStatus::Stopped => StatusView::Stopped,
            ProcessStatus::Starting => StatusView::Starting,
            ProcessStatus::Running(p) => StatusView::Running(*p),
            ProcessStatus::Crashed(m) => StatusView::Crashed(m@),
        }
    }
}

impl ProcessStatus {
    pub fn copy(&self) -> (r: Self)
        ensures
            r@ == self@,
    {
        match self {
            ProcessStatus::Stopped => ProcessStatus::Stopped,
            ProcessStatus::Starting => ProcessStatus::Starting,
            ProcessStatus::Running(p) => ProcessStatus::Running(*p),
            ProcessStatus::Crashed(m) => ProcessStatus::Crashed(m.clone()),
        }
    }
}

/// A registered project and its status.
#[derive(Debug, Clone)]
pub struct ProcessHandle {
    pub config: Project,
    pub status: ProcessStatus,
}

impl View for ProcessHandle {
    type V = (ProjectView, StatusView);

    open spec fn view(&self) -> (ProjectView, StatusView) {
        (self.config@, self.status@)
    }
}

impl ProcessHandle {
    pub fn copy(&self) -> (r: Self)
        ensures
            r@ == self@,
    {
        ProcessHandle { config: self.config.copy(), status: self.status.copy() }
    }
}

pub open spec fn hid(h: ProcessHandle) -> Seq<char> {
    h.config.id@
}

/// Entries in strictly increasing id order (so ids are distinct).
pub open spec fn sorted_ids(s: Seq<ProcessHandle>) -> bool {
    forall|i: int, j: int| 0 <= i < j < s.len() ==> seq_less(#[trigger] hid(s[i]), #[trigger] hid(s[j]))
}

/// Whether some entry has id `k`.
pub open spec fn has_id(s: Seq<ProcessHandle>, k: Seq<char>) -> bool {
    exists|i: int| 0 <= i < s.len() && #[trigger] hid(s[i]) == k
}

/// The entries by id.
pub open spec fn table(s: Seq<ProcessHandle>) -> Map<Seq<char>, (ProjectView, StatusView)> {
    Map::new(
        |k: Seq<char>| has_id(s, k),
        |k: Seq<char>| s[choose|i: int| 0 <= i < s.len() && #[trigger] hid(s[i]) == k]@,
    )
}

pub proof fn lemma_sorted_unique(s: Seq<ProcessHandle>, i: int, j: int)
    requires
        sorted_ids(s),
        0 <= i < s.len(),
        0 <= j < s.len(),
        hid(s[i]) == hid(s[j]),
    ensures
        i == j,
{
    if i < j {
        assert(seq_less(hid(s[i]), hid(s[j])));
        crate::text::lemma_seq_less_irreflexive(hid(s[i]));
    } else if j < i {
        assert(seq_less(hid(s[j]), hid(s[i])));
        crate::text::lemma_seq_less_irreflexive(hid(s[i]));
    }
}

pub proof fn lemma_table_at(s: Seq<ProcessHandle>, i: int)
    requires
        sorted_ids(s),
        0 <= i < s.len(),
    ensures
        table(s).contains_key(hid(s[i])),
        table(s)[hid(s[i])] == s[i]@,
{
    let k = hid(s[i]);
    assert(has_id(s, k));
    let j = choose|j: int| 0 <= j < s.len() && #[trigger] hid(s[j]) == k;
    lemma_sorted_unique(s, i, j);
}

/// Index of the entry with id `id` in a sorted table, if any.
fn index_of(s: &Vec<ProcessHandle>, id: &[char]) -> (r: Option<usize>)
    requires
        sorted_ids(s@),
    ensures
        match r {
            Some(i) => i < s@.len() && hid(s@[i as int]) == id@,
            None => !has_id(s@, id@),
        },
{
    let mut i: usize = 0;
    while i < s.len()
        invariant
            i <= s@.len(),
            forall|j: int| 0 <= j < i ==> hid(#[trigger] s@[j]) != id@,
        decreases s@.len() - i,
    {
        if crate::text::seq_eq(chars_of(s[i].config.id.as_str()).as_slice(), id) {
            return Some(i);
        }
        i = i + 1;
    }
    None
}

/// Replace the entry at `i` by one with the same id.
fn replace_at(s: &mut Vec<ProcessHandle>, i: usize, h: ProcessHandle)
    requires
        sorted_ids(old(s)@),
        i < old(s)@.len(),
        hid(h) == hid(old(s)@[i as int]),
    ensures
        final(s)@ == old(s)@.update(i as int, h),
        sorted_ids(final(s)@),
        table(final(s)@) == table(old(s)@).insert(hid(h), h@),
{
    let ghost o = s@;
    s.set(i, h);
    proof {
        assert forall|a: int, b: int| 0 <= a < b < s@.len() implies seq_less(
            #[trigger] hid(s@[a]),
            #[trigger] hid(s@[b]),
        ) by {
            assert(hid(s@[a]) == hid(o[a]));
            assert(hid(s@[b]) == hid(o[b]));
        }
        assert forall|k: Seq<char>| #![auto] table(s@).contains_key(k) <==> table(o).insert(
            hid(h),
            h@,
        ).contains_key(k) by {
            if has_id(o, k) {
                let j = choose|j: int| 0 <= j < o.len() && #[trigger] hid(o[j]) == k;
                assert(hid(s@[j]) == k);
            }
            if has_id(s@, k) {
                let j = choose|j: int| 0 <= j < s@.len() && #[trigger] hid(s@[j]) == k;
                assert(hid(o[j]) == k);
            }
            if k == hid(h) {
                assert(hid(s@[i as int]) == k);
            }
        }
        assert forall|k: Seq<char>| #![auto] table(s@).contains_key(k) implies table(s@)[k] == table(
            o,
        ).insert(hid(h), h@)[k] by {
            let j = choose|j: int| 0 <= j < s@.len() && #[trigger] hid(s@[j]) == k;
            lemma_table_at(s@, j);
            if j != i {
                lemma_table_at(o, j);
                if k == hid(h) {
                    lemma_sorted_unique(o, i as int, j);
                }
            }
        }
        assert(table(s@) =~= table(o).insert(hid(h), h@));
    }
}

/// Insert `h`, replacing the entry with the same id, keeping the order.
fn upsert(s: &mut Vec<ProcessHandle>, h: ProcessHandle)
    requires
        sorted_ids(old(s)@),
    ensures
        sorted_ids(final(s)@),
        table(final(s)@) == table(old(s)@).insert(hid(h), h@),
{
    let key = chars_of(h.config.id.as_str());
    let mut i: usize = 0;
    while i < s.len() && less_chars(chars_of(s[i].config.id.as_str()).as_slice(), key.as_slice())
        invariant
            i <= s@.len(),
            key@ == hid(h),
            sorted_ids(s@),
            forall|j: int| 0 <= j < i ==> seq_less(hid(#[trigger] s@[j]), key@),
        decreases s@.len() - i,
    {
        i = i + 1;
    }
    let ghost o = s@;
    let same = i < s.len() && crate::text::seq_eq(
        chars_of(s[i].config.id.as_str()).as_slice(),
        key.as_slice(),
    );
    if same {
        s.set(i, h);
        proof {
            assert forall|a: int, b: int| 0 <= a < b < s@.len() implies seq_less(
                #[trigger] hid(s@[a]),
                #[trigger] hid(s@[b]),
            ) by {
                assert(hid(s@[a]) == hid(o[a]));
                assert(hid(s@[b]) == hid(o[b]));
            }
            assert forall|k: Seq<char>| #![auto] table(s@).contains_key(k) <==> table(
                o,
            ).insert(hid(h), h@).contains_key(k) by {
                if has_id(o, k) {
                    let j = choose|j: int| 0 <= j < o.len() && #[trigger] hid(o[j]) == k;
                    assert(hid(s@[j]) == k);
                }
                if has_id(s@, k) {
                    let j = choose|j: int| 0 <= j < s@.len() && #[trigger] hid(s@[j]) == k;
                    assert(hid(o[j]) == k);
                }
                if k == hid(h) {
                    assert(hid(s@[i as int]) == k);
                }
            }
            assert forall|k: Seq<char>| #![auto] table(s@).contains_key(k) implies table(s@)[k]
                == table(o).insert(hid(h), h@)[k] by {
                let j = choose|j: int| 0 <= j < s@.len() && #[trigger] hid(s@[j]) == k;
                lemma_table_at(s@, j);
                if j != i {
                    lemma_table_at(o, j);
                    if k == hid(h) {
                        lemma_sorted_unique(o, i as int, j);
                    }
                }
            }
            assert(table(s@) =~= table(o).insert(hid(h), h@));
        }
    } else {
        proof {
            if i < o.len() {
                crate::text::lemma_seq_less_total(hid(o[i as int]), key@);
            }
        }
        s.insert(i, h);
        proof {
            // everything before `i` is smaller, everything from `i` on is larger
            assert forall|j: int| i <= j < o.len() implies seq_less(key@, #[trigger] hid(o[j])) by {
                if j > i {
                    crate::text::lemma_seq_less_transitive(key@, hid(o[i as int]), hid(o[j]));
                }
            }
            assert forall|a: int, b: int| 0 <= a < b < s@.len() implies seq_less(
                #[trigger] hid(s@[a]),
                #[trigger] hid(s@[b]),
            ) by {
                if b < i {
                    assert(s@[a] == o[a] && s@[b] == o[b]);
                } else if b == i {
                    assert(s@[a] == o[a]);
                } else if a < i {
                    assert(s@[b] == o[b - 1]);
                    crate::text::lemma_seq_less_transitive(hid(o[a]), key@, hid(o[b - 1]));
                } else if a == i {
                    assert(s@[b] == o[b - 1]);
                } else {
                    assert(s@[a] == o[a - 1] && s@[b] == o[b - 1]);
                }
            }
            assert forall|k: Seq<char>| #![auto] table(s@).contains_key(k) <==> table(
                o,
            ).insert(hid(h), h@).contains_key(k) by {
                if has_id(o, k) {
                    let j = choose|j: int| 0 <= j < o.len() && #[trigger] hid(o[j]) == k;
                    if j < i {
                        assert(hid(s@[j]) == k);
                    } else {
                        assert(hid(s@[j + 1]) == k);
                    }
                }
                if k == hid(h) {
                    assert(hid(s@[i as int]) == k);
                }
                if has_id(s@, k) {
                    let j = choose|j: int| 0 <= j < s@.len() && #[trigger] hid(s@[j]) == k;
                    if j < i {
                        assert(hid(o[j]) == k);
                    } else if j > i {
                        assert(hid(o[j - 1]) == k);
                    }
                }
            }
            assert forall|k: Seq<char>| #![auto] table(s@).contains_key(k) implies table(s@)[k]
                == table(o).insert(hid(h), h@)[k] by {
                let j = choose|j: int| 0 <= j < s@.len() && #[trigger] hid(s@[j]) == k;
                lemma_table_at(s@, j);
                if j < i {
                    lemma_table_at(o, j);
                    crate::text::lemma_seq_less_asym(hid(o[j]), key@);
                } else if j > i {
                    lemma_table_at(o, j - 1);
                    crate::text::lemma_seq_less_asym(key@, hid(o[j - 1]));
                }
            }
            assert(table(s@) =~= table(o).insert(hid(h), h@));
        }
    }
}

pub open spec fn engine_id(id: Seq<char>) -> Seq<char> {
    "engine:"@ + id
}

/// The virtual backend project registered for a project with a backend.
pub open spec fn engine_view(p: ProjectView, b: BackendView) -> ProjectView {
    ProjectView {
        id: engine_id(p.id),
        name: Some(name_of(p) + " (Engine)"@),
        path: b.path,
        port: None,
        command: b.command,
        env_only: false,
        category: match b.category {
            Some(c) => Some(c),
            None => Some("platform"@),
        },
        deps: b.deps,
        backend: None,
        env: b.env,
    }
}

/// The table made by registering `ps` in order: each project stopped, then
/// its engine (if it declares a backend); a later registration of an id
/// replaces an earlier one.
pub open spec fn registered(ps: Seq<ProjectView>) -> Map<Seq<char>, (ProjectView, StatusView)>
    decreases ps.len(),
{
    if ps.len() == 0 {
        Map::empty()
    } else {
        let p = ps.last();
        let m = registered(ps.drop_last()).insert(p.id, (p, StatusView::Stopped));
        match p.backend {
            Some(b) => m.insert(engine_id(p.id), (engine_view(p, b), StatusView::Stopped)),
            None => m,
        }
    }
}

/// Registration: every configured project is registered, with an engine
/// `engine:<id>` when it declares a backend, and everything registered
/// starts stopped.
pub proof fn law_registration_starts_stopped(ps: Seq<ProjectView>)
    ensures
        forall|k: Seq<char>| #[trigger] registered(ps).contains_key(k) ==> registered(ps)[k].1 == StatusView::Stopped,
        forall|i: int|
            0 <= i < ps.len() ==> registered(ps).contains_key(#[trigger] ps[i].id) && (ps[i].backend is Some
                ==> registered(ps).contains_key(engine_id(ps[i].id))),
    decreases ps.len(),
{
    if ps.len() > 0 {
        let pre = ps.drop_last();
        law_registration_starts_stopped(pre);
        assert forall|i: int| 0 <= i < ps.len() implies registered(ps).contains_key(#[trigger] ps[i].id) && (
        ps[i].backend is Some ==> registered(ps).contains_key(engine_id(ps[i].id))) by {
            if i < ps.len() - 1 {
                assert(pre[i] == ps[i]);
            }
        }
    }
}

pub open spec fn project_views(v: Seq<Project>) -> Seq<ProjectView> {
    v.map_values(|p: Project| p@)
}

pub open spec fn template_views(v: Seq<Template>) -> Seq<TemplateView> {
    v.map_values(|t: Template| t@)
}

pub open spec fn group_views(v: Seq<Group>) -> Seq<GroupView> {
    v.map_values(|g: Group| g@)
}

pub open spec fn handle_views(v: Seq<ProcessHandle>) -> Seq<(ProjectView, StatusView)> {
    v.map_values(|h: ProcessHandle| h@)
}

/// Views in strictly increasing id order.
pub open spec fn sorted_views(s: Seq<(ProjectView, StatusView)>) -> bool {
    forall|i: int, j: int| 0 <= i < j < s.len() ==> seq_less(#[trigger] s[i].0.id, #[trigger] s[j].0.id)
}

/// The process table: every registered project (virtual engines included)
/// with its status, plus templates, groups, the root directory, the
/// host-mode and prod-mode flags and the log revisions.
pub struct ProcessManager {
    processes: Vec<ProcessHandle>,
    templates: Vec<Template>,
    groups: Vec<Group>,
    root_dir: String,
    host_mode: Vec<(String, bool)>,
    prod_mode: Vec<(String, bool)>,
    log_rev: Vec<(String, u64)>,
    logs: Vec<(String, Vec<String>)>,
}

fn engine_project(p: &Project, b: &BackendSpec) -> (e: Project)
    requires
        p.backend matches Some(x) && x@ == b@,
    ensures
        e@ == engine_view(p@, b@),
{
    let mut id = chars_of("engine:");
    let pid = chars_of(p.id.as_str());
    let mut k: usize = 0;
    let ghost base = id@;
    while k < pid.len()
        invariant
            k <= pid@.len(),
            id@ == base + pid@.take(k as int),
        decreases pid@.len() - k,
    {
        id.push(pid[k]);
        assert(pid@.take(k + 1) =~= pid@.take(k as int).push(pid@[k as int]));
        k = k + 1;
    }
    assert(pid@.take(pid@.len() as int) =~= pid@);
    let mut name = chars_of(p.get_name().as_str());
    let suffix = chars_of(" (Engine)");
    let ghost nb = name@;
    k = 0;
    while k < suffix.len()
        invariant
            k <= suffix@.len(),
            name@ == nb + suffix@.take(k as int),
        decreases suffix@.len() - k,
    {
        name.push(suffix[k]);
        assert(suffix@.take(k + 1) =~= suffix@.take(k as int).push(suffix@[k as int]));
        k = k + 1;
    }
    assert(suffix@.take(suffix@.len() as int) =~= suffix@);
    let category = match &b.category {
        Some(c) => Some(c.clone()),
        None => Some(crate::text::copy_str("platform")),
    };
    Project {
        id: string_of(id.as_slice()),
        name: Some(string_of(name.as_slice())),
        path: b.path.clone(),
        port: None,
        command: copy_opt(&b.command),
        env_only: false,
        category,
        deps: copy_strs(&b.deps),
        backend: None,
        env: crate::config::copy_env_specs(&b.env),
    }
}

impl ProcessManager {
    /// The registered processes, in id order.
    pub closed spec fn entries(&self) -> Seq<(ProjectView, StatusView)> {
        handle_views(self.processes@)
    }

    /// The registered processes by id.
    pub closed spec fn processes(&self) -> Map<Seq<char>, (ProjectView, StatusView)> {
        table(self.processes@)
    }

    /// Finitely many processes are registered.
    pub proof fn lemma_table_finite(&self)
        ensures
            self.processes().dom().finite(),
    {
        let ids = self.processes@.map_values(|h: ProcessHandle| hid(h)).to_set();
        assert(self.processes().dom().subset_of(ids)) by {
            assert forall|k: Seq<char>| self.processes().dom().contains(k) implies ids.contains(k) by {
                let i = choose|i: int| 0 <= i < self.processes@.len() && #[trigger] hid(self.processes@[i]) == k;
                assert(self.processes@.map_values(|h: ProcessHandle| hid(h))[i] == k);
            }
        }
        vstd::set_lib::lemma_len_subset(self.processes().dom(), ids);
    }

    pub closed spec fn templates_view(&self) -> Seq<TemplateView> {
        template_views(self.templates@)
    }

    pub closed spec fn groups_view(&self) -> Seq<GroupView> {
        group_views(self.groups@)
    }

    pub closed spec fn root(&self) -> Seq<char> {
        self.root_dir@
    }

    /// Whether `id` is in host mode (its dev server binds to all interfaces).
    pub closed spec fn host_on(&self, id: Seq<char>) -> bool {
        kv_get(self.host_mode@, id) == Some(true)
    }

    /// Whether `id` is in prod mode (its dev command runs as a preview).
    pub closed spec fn prod_on(&self, id: Seq<char>) -> bool {
        kv_get(self.prod_mode@, id) == Some(true)
    }

    /// The log revision of `id`: how often its log has changed.
    pub closed spec fn rev_of(&self, id: Seq<char>) -> u64 {
        match kv_get(self.log_rev@, id) {
            Some(n) => n,
            None => 0,
        }
    }

    /// The in-memory log lines of `id`, oldest first.
    pub closed spec fn logs_of(&self, id: Seq<char>) -> Seq<Seq<char>> {
        match kv_get(self.logs@, id) {
            Some(v) => strs(v@),
            None => Seq::empty(),
        }
    }

    /// The mode flags and log revisions, as stored.
    pub closed spec fn modes(&self) -> (Seq<(String, bool)>, Seq<(String, bool)>, Seq<(String, u64)>) {
        (self.host_mode@, self.prod_mode@, self.log_rev@)
    }

    /// The log buffers, as stored.
    pub closed spec fn log_store(&self) -> Seq<(String, Vec<String>)> {
        self.logs@
    }

    pub closed spec fn wf(&self) -> bool {
        sorted_ids(self.processes@)
    }

    /// Equal mode flags, revisions and log buffers read the same for every id.
    pub proof fn lemma_same_store(&self, other: &ProcessManager)
        requires
            self.modes() == other.modes(),
            self.log_store() == other.log_store(),
        ensures
            forall|k: Seq<char>| #[trigger] self.logs_of(k) == other.logs_of(k),
            forall|k: Seq<char>| #[trigger] self.rev_of(k) == other.rev_of(k),
            forall|k: Seq<char>| #[trigger] self.host_on(k) == other.host_on(k),
            forall|k: Seq<char>| #[trigger] self.prod_on(k) == other.prod_on(k),
    {
    }

    /// Equal mode flags and revisions read the same for every id.
    pub proof fn lemma_same_modes(&self, other: &ProcessManager)
        requires
            self.modes() == other.modes(),
        ensures
            forall|k: Seq<char>| #[trigger] self.rev_of(k) == other.rev_of(k),
            forall|k: Seq<char>| #[trigger] self.host_on(k) == other.host_on(k),
            forall|k: Seq<char>| #[trigger] self.prod_on(k) == other.prod_on(k),
    {
    }

    /// What `get_statuses` lists: every registered process exactly as the
    /// table holds it, each once, in increasing order of id.
    pub proof fn law_statuses_in_id_order(&self)
        requires
            self.wf(),
        ensures
            sorted_views(self.entries()),
            forall|i: int|
                0 <= i < self.entries().len() ==> self.processes().contains_key(
                    #[trigger] self.entries()[i].0.id,
                ) && self.processes()[self.entries()[i].0.id] == self.entries()[i],
            forall|k: Seq<char>|
                #[trigger] self.processes().contains_key(k) ==> exists|i: int|
                    0 <= i < self.entries().len() && self.entries()[i].0.id == k,
    {
        assert forall|i: int| 0 <= i < self.entries().len() implies self.processes().contains_key(
            #[trigger] self.entries()[i].0.id,
        ) && self.processes()[self.entries()[i].0.id] == self.entries()[i] by {
            lemma_table_at(self.processes@, i);
        }
        assert forall|k: Seq<char>| #[trigger] self.processes().contains_key(k) implies exists|i: int|
            0 <= i < self.entries().len() && self.entries()[i].0.id == k by {
            let j = choose|j: int| 0 <= j < self.processes@.len() && #[trigger] hid(self.processes@[j]) == k;
            assert(self.entries()[j].0.id == k);
        }
        assert forall|i: int, j: int| 0 <= i < j < self.entries().len() implies seq_less(
            #[trigger] self.entries()[i].0.id,
            #[trigger] self.entries()[j].0.id,
        ) by {
            assert(hid(self.processes@[i]) == self.entries()[i].0.id);
            assert(hid(self.processes@[j]) == self.entries()[j].0.id);
        }
    }

    /// Register every project (stopped), and for each project with a backend
    /// a virtual engine project `engine:<id>` that starts before and stops
    /// with it.
    pub fn new(projects: Vec<Project>, templates: Vec<Template>, groups: Vec<Group>, root_dir: String) -> (m: Self)
        ensures
            m.wf(),
            m.processes() == registered(project_views(projects@)),
            m.templates_view() == template_views(templates@),
            m.groups_view() == group_views(groups@),
            m.root() == root_dir@,
            forall|k: Seq<char>| !m.host_on(k) && !m.prod_on(k) && m.rev_of(k) == 0 && m.logs_of(k).len() == 0,
    {
        let mut processes: Vec<ProcessHandle> = Vec::new();
        let mut i: usize = 0;
        let ghost pv = project_views(projects@);
        proof {
            assert(pv.take(0) =~= Seq::<ProjectView>::empty());
            assert(table(processes@) =~= Map::<Seq<char>, (ProjectView, StatusView)>::empty());
        }
        while i < projects.len()
            invariant
                i <= projects@.len(),
                pv == project_views(projects@),
                sorted_ids(processes@),
                table(processes@) == registered(pv.take(i as int)),
            decreases projects@.len() - i,
        {
            let p = &projects[i];
            let h = ProcessHandle { config: p.copy(), status: ProcessStatus::Stopped };
            upsert(&mut processes, h);
            match &p.backend {
                Some(b) => {
                    let e = engine_project(p, b);
                    let eh = ProcessHandle { config: e, status: ProcessStatus::Stopped };
                    upsert(&mut processes, eh);
                },
                None => {},
            }
            proof {
                assert(pv.take(i + 1).drop_last() =~= pv.take(i as int));
                assert(pv.take(i + 1).last() == p@);
            }
            i = i + 1;
        }
        assert(pv.take(projects@.len() as int) =~= pv);
        ProcessManager {
            processes,
            templates,
            groups,
            root_dir,
            host_mode: Vec::new(),
            prod_mode: Vec::new(),
            log_rev: Vec::new(),
            logs: Vec::new(),
        }
    }

    /// Every registered process with its status, ordered by id.
    pub fn get_statuses(&self) -> (r: Vec<(Project, ProcessStatus)>)
        requires
            self.wf(),
        ensures
            r@.len() == self.entries().len(),
            forall|i: int|
                0 <= i < r@.len() ==> (#[trigger] r@[i]).0@ == self.entries()[i].0 && r@[i].1@
                    == self.entries()[i].1,
    {
        let mut r: Vec<(Project, ProcessStatus)> = Vec::new();
        let mut i: usize = 0;
        while i < self.processes.len()
            invariant
                i <= self.processes@.len(),
                r@.len() == i,
                forall|j: int|
                    0 <= j < i ==> (#[trigger] r@[j]).0@ == self.entries()[j].0 && r@[j].1@
                        == self.entries()[j].1,
            decreases self.processes@.len() - i,
        {
            let h = &self.processes[i];
            r.push((h.config.copy(), h.status.copy()));
            i = i + 1;
        }
        r
    }

    /// The configured projects (virtual engines excluded), in id order.
    pub fn get_projects(&self) -> (r: Vec<Project>)
        requires
            self.wf(),
        ensures
            project_views(r@) == self.entries().filter(
                |e: (ProjectView, StatusView)| !crate::text::starts_with(e.0.id, "engine:"@),
            ).map_values(|e: (ProjectView, StatusView)| e.0),
    {
        let ghost f = |e: (ProjectView, StatusView)| !crate::text::starts_with(e.0.id, "engine:"@);
        let ghost g = |e: (ProjectView, StatusView)| e.0;
        let mut r: Vec<Project> = Vec::new();
        let mut i: usize = 0;
        while i < self.processes.len()
            invariant
                i <= self.processes@.len(),
                f == (|e: (ProjectView, StatusView)| !crate::text::starts_with(e.0.id, "engine:"@)),
                g == (|e: (ProjectView, StatusView)| e.0),
                project_views(r@) == self.entries().take(i as int).filter(f).map_values(g),
            decreases self.processes@.len() - i,
        {
            let h = &self.processes[i];
            let is_engine = crate::text::starts_with_str(chars_of(h.config.id.as_str()).as_slice(), "engine:");
            let ghost before = r@;
            proof {
                assert(self.entries().take(i + 1).drop_last() =~= self.entries().take(i as int));
                reveal_with_fuel(Seq::filter, 1);
            }
            if !is_engine {
                r.push(h.config.copy());
                assert(project_views(r@) =~= project_views(before).push(h.config@));
            }
            i = i + 1;
        }
        assert(self.entries().take(self.processes@.len() as int) =~= self.entries());
        r
    }

    pub fn get_groups(&self) -> (r: Vec<Group>)
        ensures
            group_views(r@) == self.groups_view(),
    {
        let mut r: Vec<Group> = Vec::new();
        let mut i: usize = 0;
        while i < self.groups.len()
            invariant
                i <= self.groups@.len(),
                group_views(r@) == group_views(self.groups@).take(i as int),
            decreases self.groups@.len() - i,
        {
            let ghost before = r@;
            r.push(self.groups[i].copy());
            assert(group_views(r@) =~= group_views(before).push(self.groups@[i as int]@));
            assert(group_views(self.groups@).take(i + 1) =~= group_views(self.groups@).take(i as int).push(self.groups@[i as int]@));
            i = i + 1;
        }
        assert(group_views(self.groups@).take(self.groups@.len() as int) =~= group_views(self.groups@));
        r
    }

    /// The first group with id `group_id`.
    pub fn get_group(&self, group_id: &str) -> (r: Option<Group>)
        ensures
            match r {
                Some(g) => exists|i: int|
                    0 <= i < self.groups_view().len() && self.groups_view()[i] == g@ && g@.id == group_id@
                        && forall|j: int| 0 <= j < i ==> (#[trigger] self.groups_view()[j]).id != group_id@,
                None => forall|j: int| 0 <= j < self.groups_view().len() ==> (#[trigger] self.groups_view()[j]).id != group_id@,
            },
    {
        let mut i: usize = 0;
        while i < self.groups.len()
            invariant
                i <= self.groups@.len(),
                forall|j: int| 0 <= j < i ==> (#[trigger] self.groups_view()[j]).id != group_id@,
            decreases self.groups@.len() - i,
        {
            if crate::text::seq_eq(chars_of(self.groups[i].id.as_str()).as_slice(), chars_of(group_id).as_slice()) {
                let g = self.groups[i].copy();
                assert(self.groups_view()[i as int] == g@);
                return Some(g);
            }
            i = i + 1;
        }
        None
    }

    pub fn get_templates(&self) -> (r: Vec<Template>)
        ensures
            template_views(r@) == self.templates_view(),
    {
        let mut r: Vec<Template> = Vec::new();
        let mut i: usize = 0;
        while i < self.templates.len()
            invariant
                i <= self.templates@.len(),
                template_views(r@) == template_views(self.templates@).take(i as int),
            decreases self.templates@.len() - i,
        {
            let ghost before = r@;
            r.push(self.templates[i].copy());
            assert(template_views(r@) =~= template_views(before).push(self.templates@[i as int]@));
            assert(template_views(self.templates@).take(i + 1) =~= template_views(self.templates@).take(i as int).push(self.templates@[i as int]@));
            i = i + 1;
        }
        assert(template_views(self.templates@).take(self.templates@.len() as int) =~= template_views(self.templates@));
        r
    }

    /// The id of the first group that lists `project_id` among its projects.
    pub fn find_group_for_project(&self, project_id: &str) -> (r: Option<String>)
        ensures
            match r {
                Some(gid) => exists|i: int|
                    0 <= i < self.groups_view().len() && self.groups_view()[i].id == gid@
                        && self.groups_view()[i].projects.contains(project_id@)
                        && forall|j: int| 0 <= j < i ==> !(#[trigger] self.groups_view()[j]).projects.contains(project_id@),
                None => forall|j: int| 0 <= j < self.groups_view().len() ==> !(#[trigger] self.groups_view()[j]).projects.contains(project_id@),
            },
    {
        let mut i: usize = 0;
        while i < self.groups.len()
            invariant
                i <= self.groups@.len(),
                forall|j: int| 0 <= j < i ==> !(#[trigger] self.groups_view()[j]).projects.contains(project_id@),
            decreases self.groups@.len() - i,
        {
            if crate::features::projects::contains_id(&self.groups[i].projects, project_id) {
                assert(self.groups_view()[i as int].projects == crate::features::projects::ids_of(self.groups@[i as int].projects@));
                return Some(self.groups[i].id.clone());
            }
            assert(self.groups_view()[i as int].projects == crate::features::projects::ids_of(self.groups@[i as int].projects@));
            i = i + 1;
        }
        None
    }

    /// Unregister the process with id `id` (if any).
    pub fn remove_project(&mut self, id: &str)
        requires
            old(self).wf(),
        ensures
            final(self).wf(),
            final(self).processes() == old(self).processes().remove(id@),
            final(self).templates_view() == old(self).templates_view(),
            final(self).groups_view() == old(self).groups_view(),
            final(self).root() == old(self).root(),
            final(self).modes() == old(self).modes(),
            final(self).log_store() == old(self).log_store(),
    {
        let key = chars_of(id);
        match index_of(&self.processes, key.as_slice()) {
            Some(i) => {
                let ghost o = self.processes@;
                let _ = self.processes.remove(i);
                proof {
                    let s = self.processes@;
                    assert forall|a: int, b: int| 0 <= a < b < s.len() implies seq_less(
                        #[trigger] hid(s[a]),
                        #[trigger] hid(s[b]),
                    ) by {
                        if b < i {
                        } else if a < i {
                            assert(s[b] == o[b + 1]);
                        } else {
                            assert(s[a] == o[a + 1] && s[b] == o[b + 1]);
                        }
                    }
                    assert forall|k: Seq<char>| #![auto] table(s).contains_key(k) <==> table(o).remove(id@).contains_key(k) by {
                        if has_id(o, k) && k != id@ {
                            let j = choose|j: int| 0 <= j < o.len() && #[trigger] hid(o[j]) == k;
                            if j < i {
                                assert(hid(s[j]) == k);
                            } else {
                                assert(j != i);
                                assert(hid(s[j - 1]) == k);
                            }
                        }
                        if has_id(s, k) {
                            let j = choose|j: int| 0 <= j < s.len() && #[trigger] hid(s[j]) == k;
                            if j < i {
                                assert(hid(o[j]) == k);
                                if k == id@ {
                                    lemma_sorted_unique(o, j, i as int);
                                }
                            } else {
                                assert(hid(o[j + 1]) == k);
                                if k == id@ {
                                    lemma_sorted_unique(o, j + 1, i as int);
                                }
                            }
                        }
                    }
                    assert forall|k: Seq<char>| #![auto] table(s).contains_key(k) implies table(s)[k] == table(o).remove(id@)[k] by {
                        let j = choose|j: int| 0 <= j < s.len() && #[trigger] hid(s[j]) == k;
                        lemma_table_at(s, j);
                        if j < i {
                            lemma_table_at(o, j);
                        } else {
                            lemma_table_at(o, j + 1);
                        }
                    }
                    assert(table(s) =~= table(o).remove(id@));
                }
            },
            None => {
                proof {
                    assert(!table(self.processes@).contains_key(id@));
                    assert(table(self.processes@).remove(id@) =~= table(self.processes@));
                }
            },
        }
    }

    /// Register `project` (stopped), replacing any process with its id.
    pub fn add_project(&mut self, project: Project)
        requires
            old(self).wf(),
        ensures
            final(self).wf(),
            final(self).processes() == old(self).processes().insert(project@.id, (project@, StatusView::Stopped)),
            final(self).templates_view() == old(self).templates_view(),
            final(self).groups_view() == old(self).groups_view(),
            final(self).root() == old(self).root(),
            final(self).modes() == old(self).modes(),
            final(self).logs_of(project@.id).len() == 0,
            forall|k: Seq<char>| k != project@.id ==> #[trigger] final(self).logs_of(k) == old(self).logs_of(k),
    {
        let key = project.id.clone();
        let h = ProcessHandle { config: project, status: ProcessStatus::Stopped };
        upsert(&mut self.processes, h);
        kv_set(&mut self.logs, key, Vec::new());
        assert(strs(Seq::<String>::empty()) =~= Seq::<Seq<char>>::empty());
    }
}

} // verus!
