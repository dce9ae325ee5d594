//! The configuration model: projects, their backends and env specs,
//! templates and groups, and the path rules applied at load time.
use crate::text::{chars_of, copy_str, eq_str, split_chars, split_on, string_of, views};
use vstd::prelude::*;

verus! {

#[derive(Debug, Clone)]
pub struct Project {
    pub id: String,
    pub name: Option<String>,
    /// Absolute path
    pub path: String,
    pub port: Option<u16>,
    pub command: Option<String>,
    pub env_only: bool,
    pub category: Option<String>,
    /// Project ids that must be started before this one.
    pub deps: Vec<String>,
    /// If set, Matrix auto-registers a virtual backend project (`engine:<id>`)
    /// that starts before and stops with this project.
    pub backend: Option<BackendSpec>,
    /// Environment variables to inject into this project's process.
    pub env: Vec<EnvSpec>,
}

/// Spec for a project's auto-registered backend process (`engine:<id>`).
#[derive(Debug, Clone)]
pub struct BackendSpec {
    pub path: String,
    pub command: Option<String>,
    /// Fixed port for the backend. If unset, resolves dynamically (parent port + 1).
    pub port: Option<u16>,
    /// Project ids started before the backend.
    pub deps: Vec<String>,
    /// Env specs for the backend process. Placeholders resolve against the
    /// PARENT project (e.g. `{{id}}`, `{{path}}`, `{{parent_port}}`).
    pub env: Vec<EnvSpec>,
    pub category: Option<String>,
}

/// Declarative environment variable for a process.
#[derive(Debug, Clone)]
pub struct EnvSpec {
    pub key: String,
    /// Static or templated value ({{placeholders}}).
    pub value: Option<String>,
    /// Files (relative to the project path) to read the key from, in order;
    /// first file that defines the key wins.
    pub file: Vec<String>,
    /// Templated fallback when neither `value` nor any `file` provides the key.
    pub default: Option<String>,
    /// When set, `value` is used only while this project id is running;
    /// otherwise `else_value` (if present) is used.
    pub if_running: Option<String>,
    pub else_value: Option<String>,
}

#[derive(Debug, Clone)]
pub struct Template {
    pub name: String,
    pub projects: Vec<String>,
}

#[derive(Debug, Clone)]
pub struct Group {
    pub id: String,
    pub name: String,
    pub projects: Vec<String>,
    /// Auto-start these too
    pub infrastructure: Vec<String>,
}

#[derive(Debug, Clone)]
pub struct MatrixConfig {
    pub projects: Vec<Project>,
    pub templates: Vec<Template>,
    pub groups: Vec<Group>,
    /// First-launch guidance has been shown/completed. Defaults to false, so a
    /// config written before this field existed behaves as a fresh install.
    pub onboarded: bool,
}

// ── views ──────────────────────────────────────────────────────────────────

pub open spec fn opt_str(o: Option<String>) -> Option<Seq<char>> {
    match o {
        Some(s) => Some(s@),
        None => None,
    }
}

pub open spec fn strs(v: Seq<String>) -> Seq<Seq<char>> {
    v.map_values(|s: String| s@)
}

pub struct EnvSpecView {
    pub key: Seq<char>,
    pub value: Option<Seq<char>>,
    pub file: Seq<Seq<char>>,
    pub default: Option<Seq<char>>,
    pub if_running: Option<Seq<char>>,
    pub else_value: Option<Seq<char>>,
}

impl View for EnvSpec {
    type V = EnvSpecView;

    open spec fn view(&self) -> EnvSpecView {
        EnvSpecView {
            key: self.key@,
            value: opt_str(self.value),
            file: strs(self.file@),
            default: opt_str(self.default),
            if_running: opt_str(self.if_running),
            else_value: opt_str(self.else_value),
        }
    }
}

pub open spec fn env_views(v: Seq<EnvSpec>) -> Seq<EnvSpecView> {
    v.map_values(|e: EnvSpec| e@)
}

pub struct BackendView {
    pub path: Seq<char>,
    pub command: Option<Seq<char>>,
    pub port: Option<u16>,
    pub deps: Seq<Seq<char>>,
    pub env: Seq<EnvSpecView>,
    pub category: Option<Seq<char>>,
}

impl View for BackendSpec {
    type V = BackendView;

    open spec fn view(&self) -> BackendView {
        BackendView {
            path: self.path@,
            command: opt_str(self.command),
            port: self.port,
            deps: strs(self.deps@),
            env: env_views(self.env@),
            category: opt_str(self.category),
        }
    }
}

pub struct ProjectView {
    pub id: Seq<char>,
    pub name: Option<Seq<char>>,
    pub path: Seq<char>,
    pub port: Option<u16>,
    pub command: Option<Seq<char>>,
    pub env_only: bool,
    pub category: Option<Seq<char>>,
    pub deps: Seq<Seq<char>>,
    pub backend: Option<BackendView>,
    pub env: Seq<EnvSpecView>,
}

impl View for Project {
    type V = ProjectView;

    open spec fn view(&self) -> ProjectView {
        ProjectView {
            id: self.id@,
            name: opt_str(self.name),
            path: self.path@,
            port: self.port,
            command: opt_str(self.command),
            env_only: self.env_only,
            category: opt_str(self.category),
            deps: strs(self.deps@),
            backend: match self.backend {
                Some(b) => Some(b@),
                None => None,
            },
            env: env_views(self.env@),
        }
    }
}

pub struct TemplateView {
    pub name: Seq<char>,
    pub projects: Seq<Seq<char>>,
}

impl View for Template {
    type V = TemplateView;

    open spec fn view(&self) -> TemplateView {
        TemplateView { name: self.name@, projects: strs(self.projects@) }
    }
}

pub struct GroupView {
    pub id: Seq<char>,
    pub name: Seq<char>,
    pub projects: Seq<Seq<char>>,
    pub infrastructure: Seq<Seq<char>>,
}

impl View for Group {
    type V = GroupView;

    open spec fn view(&self) -> GroupView {
        GroupView {
            id: self.id@,
            name: self.name@,
            projects: strs(self.projects@),
            infrastructure: strs(self.infrastructure@),
        }
    }
}

// ── copies ─────────────────────────────────────────────────────────────────

pub fn copy_opt(o: &Option<String>) -> (r: Option<String>)
    ensures
        opt_str(r) == opt_str(*o),
{
    match o {
        Some(s) => Some(s.clone()),
        None => None,
    }
}

pub fn copy_strs(v: &Vec<String>) -> (r: Vec<String>)
    ensures
        strs(r@) == strs(v@),
{
    let mut r: Vec<String> = Vec::new();
    let mut i: usize = 0;
    while i < v.len()
        invariant
            i <= v@.len(),
            strs(r@) == strs(v@).take(i as int),
        decreases v@.len() - i,
    {
        let ghost before = r@;
        r.push(v[i].clone());
        assert(strs(r@) =~= strs(before).push(v@[i as int]@));
        assert(strs(v@).take(i + 1) =~= strs(v@).take(i as int).push(v@[i as int]@));
        i = i + 1;
    }
    assert(strs(v@).take(v@.len() as int) =~= strs(v@));
    r
}

impl EnvSpec {
    pub fn copy(&self) -> (r: Self)
        ensures
            r@ == self@,
    {
        EnvSpec {
            key: self.key.clone(),
            value: copy_opt(&self.value),
            file: copy_strs(&self.file),
            default: copy_opt(&self.default),
            if_running: copy_opt(&self.if_running),
            else_value: copy_opt(&self.else_value),
        }
    }
}

pub fn copy_env_specs(v: &Vec<EnvSpec>) -> (r: Vec<EnvSpec>)
    ensures
        env_views(r@) == env_views(v@),
{
    let mut r: Vec<EnvSpec> = Vec::new();
    let mut i: usize = 0;
    while i < v.len()
        invariant
            i <= v@.len(),
            env_views(r@) == env_views(v@).take(i as int),
        decreases v@.len() - i,
    {
        let ghost before = r@;
        let e = v[i].copy();
        r.push(e);
        assert(env_views(r@) =~= env_views(before).push(v@[i as int]@));
        assert(env_views(v@).take(i + 1) =~= env_views(v@).take(i as int).push(v@[i as int]@));
        i = i + 1;
    }
    assert(env_views(v@).take(v@.len() as int) =~= env_views(v@));
    r
}

impl BackendSpec {
    pub fn copy(&self) -> (r: Self)
        ensures
            r@ == self@,
    {
        BackendSpec {
            path: self.path.clone(),
            command: copy_opt(&self.command),
            port: self.port,
            deps: copy_strs(&self.deps),
            env: copy_env_specs(&self.env),
            category: copy_opt(&self.category),
        }
    }
}

impl Project {
    pub fn copy(&self) -> (r: Self)
        ensures
            r@ == self@,
    {
        Project {
            id: self.id.clone(),
            name: copy_opt(&self.name),
            path: self.path.clone(),
            port: self.port,
            command: copy_opt(&self.command),
            env_only: self.env_only,
            category: copy_opt(&self.category),
            deps: copy_strs(&self.deps),
            backend: match &self.backend {
                Some(b) => Some(b.copy()),
                None => None,
            },
            env: copy_env_specs(&self.env),
        }
    }
}

impl Template {
    pub fn copy(&self) -> (r: Self)
        ensures
            r@ == self@,
    {
        Template { name: self.name.clone(), projects: copy_strs(&self.projects) }
    }
}

impl Group {
    pub fn copy(&self) -> (r: Self)
        ensures
            r@ == self@,
    {
        Group {
            id: self.id.clone(),
            name: self.name.clone(),
            projects: copy_strs(&self.projects),
            infrastructure: copy_strs(&self.infrastructure),
        }
    }
}

// ── paths ───────────────────────────────────────────────────────────────────

/// The named components of a `/`-separated path: empty pieces (repeated or
/// trailing separators) and `.` pieces are not components.
pub open spec fn named_parts(p: Seq<char>) -> Seq<Seq<char>> {
    split_on(p, '/').filter(|c: Seq<char>| c.len() > 0 && c != seq!['.'])
}

/// `Path::file_name`: the last component, unless it is `..` or there is none.
pub open spec fn file_name(p: Seq<char>) -> Option<Seq<char>> {
    let parts = named_parts(p);
    if parts.len() == 0 || parts.last() == seq!['.', '.'] {
        None
    } else {
        Some(parts.last())
    }
}

/// `Path::is_absolute` on Unix: the path starts at the root.
pub open spec fn is_absolute(p: Seq<char>) -> bool {
    p.len() > 0 && p[0] == '/'
}

/// `base.join(p)` for a relative `p`: a separator goes between them unless
/// `base` is empty or already ends in one.
pub open spec fn join_path(base: Seq<char>, p: Seq<char>) -> Seq<char> {
    if base.len() > 0 && base.last() != '/' {
        base + seq!['/'] + p
    } else {
        base + p
    }
}

/// A path made absolute against `base`.
pub open spec fn absolutized(base: Seq<char>, p: Seq<char>) -> Seq<char> {
    if is_absolute(p) {
        p
    } else {
        join_path(base, p)
    }
}

pub fn path_file_name(p: &str) -> (r: Option<Vec<char>>)
    ensures
        match r {
            Some(v) => file_name(p@) == Some(v@),
            None => file_name(p@).is_none(),
        },
{
    let cs = chars_of(p);
    let pieces = split_chars(cs.as_slice(), '/');
    let ghost all = views(pieces@);
    let ghost keep = |c: Seq<char>| c.len() > 0 && c != seq!['.'];
    let mut last: Option<usize> = None;
    let mut i: usize = 0;
    while i < pieces.len()
        invariant
            i <= pieces@.len(),
            all == views(pieces@),
            keep == (|c: Seq<char>| c.len() > 0 && c != seq!['.']),
            match last {
                Some(j) => j < i && all.take(i as int).filter(keep).len() > 0 && all.take(
                    i as int,
                ).filter(keep).last() == all[j as int],
                None => all.take(i as int).filter(keep).len() == 0,
            },
        decreases pieces@.len() - i,
    {
        let piece = &pieces[i];
        let is_dot = piece.len() == 1 && piece[0] == '.';
        proof {
            assert(all.take(i + 1).drop_last() =~= all.take(i as int));
            reveal_with_fuel(Seq::filter, 1);
            assert(is_dot == (piece@ == seq!['.'])) by {
                if piece@.len() == 1 {
                    if piece@[0] == '.' {
                        assert(piece@ =~= seq!['.']);
                    }
                }
            }
        }
        if piece.len() > 0 && !is_dot {
            last = Some(i);
        }
        i = i + 1;
    }
    assert(all.take(all.len() as int) =~= all);
    match last {
        None => None,
        Some(j) => {
            let piece = &pieces[j];
            assert(piece@ == all[j as int]);
            let dotdot = piece.len() == 2 && piece[0] == '.' && piece[1] == '.';
            proof {
                if piece@.len() == 2 && piece@[0] == '.' && piece@[1] == '.' {
                    assert(piece@ =~= seq!['.', '.']);
                }
            }
            if dotdot {
                None
            } else {
                Some(piece.clone())
            }
        },
    }
}

/// `base.join(p)` when `p` is relative; `p` itself when absolute.
pub fn absolutize(base: &str, p: &str) -> (res: String)
    ensures
        res@ == absolutized(base@, p@),
{
    let pc = chars_of(p);
    if pc.len() > 0 && pc[0] == '/' {
        return string_of(pc.as_slice());
    }
    let mut out = chars_of(base);
    if out.len() > 0 && out[out.len() - 1] != '/' {
        out.push('/');
    }
    let ghost base2 = out@;
    let mut k: usize = 0;
    while k < pc.len()
        invariant
            k <= pc@.len(),
            out@ == base2 + pc@.take(k as int),
        decreases pc@.len() - k,
    {
        out.push(pc[k]);
        assert(pc@.take(k + 1) =~= pc@.take(k as int).push(pc@[k as int]));
        k = k + 1;
    }
    assert(pc@.take(pc@.len() as int) =~= pc@);
    string_of(out.as_slice())
}

/// The name shown for a project: its configured name, else the last
/// component of its path, else its id.
pub open spec fn name_of(p: ProjectView) -> Seq<char> {
    match p.name {
        Some(n) => n,
        None => match file_name(p.path) {
            Some(f) => f,
            None => p.id,
        },
    }
}

pub open spec fn display_name(p: Project) -> Seq<char> {
    name_of(p@)
}

impl Project {
    /// The configured name, else the last component of the path, else the id.
    pub fn get_name(&self) -> (res: String)
        ensures
            res@ == display_name(*self),
    {
        match &self.name {
            Some(n) => n.clone(),
            None => match path_file_name(self.path.as_str()) {
                Some(f) => string_of(f.as_slice()),
                None => self.id.clone(),
            },
        }
    }
}

/// `b` is `a` with its path made absolute against `base`.
pub open spec fn backend_normalized(a: BackendSpec, b: BackendSpec, base: Seq<char>) -> bool {
    &&& b.path@ == absolutized(base, a.path@)
    &&& b.command == a.command
    &&& b.port == a.port
    &&& b.deps == a.deps
    &&& b.env == a.env
    &&& b.category == a.category
}

/// `b` is `a` with its own and its backend's paths made absolute against `base`.
pub open spec fn project_normalized(a: Project, b: Project, base: Seq<char>) -> bool {
    &&& b.path@ == absolutized(base, a.path@)
    &&& b.id == a.id
    &&& b.name == a.name
    &&& b.port == a.port
    &&& b.command == a.command
    &&& b.env_only == a.env_only
    &&& b.category == a.category
    &&& b.deps == a.deps
    &&& b.env == a.env
    &&& match (a.backend, b.backend) {
        (Some(x), Some(y)) => backend_normalized(x, y, base),
        (None, None) => true,
        _ => false,
    }
}

impl MatrixConfig {
    /// Rewrite relative project and backend paths to absolute against `base`
    /// (the config file's directory), so a relative path never resolves
    /// against wherever `matrix` happens to be launched from.
    pub fn normalize_paths(&mut self, base: &str)
        ensures
            final(self).projects@.len() == old(self).projects@.len(),
            forall|i: int|
                0 <= i < old(self).projects@.len() ==> project_normalized(
                    old(self).projects@[i],
                    #[trigger] final(self).projects@[i],
                    base@,
                ),
            final(self).templates == old(self).templates,
            final(self).groups == old(self).groups,
            final(self).onboarded == old(self).onboarded,
    {
        let mut i: usize = 0;
        let ghost orig = self.projects@;
        while i < self.projects.len()
            invariant
                i <= self.projects@.len(),
                self.projects@.len() == orig.len(),
                forall|j: int|
                    0 <= j < i ==> project_normalized(orig[j], #[trigger] self.projects@[j], base@),
                forall|j: int| i <= j < orig.len() ==> #[trigger] self.projects@[j] == orig[j],
                self.templates == old(self).templates,
                self.groups == old(self).groups,
                self.onboarded == old(self).onboarded,
            decreases self.projects@.len() - i,
        {
            let mut p = self.projects.remove(i);
            let np = absolutize(base, p.path.as_str());
            p.path = np;
            let nb = match p.backend {
                Some(b) => {
                    let mut b = b;
                    let bp = absolutize(base, b.path.as_str());
                    b.path = bp;
                    Some(b)
                },
                None => None,
            };
            p.backend = nb;
            self.projects.insert(i, p);
            i = i + 1;
        }
    }
}

} // verus!
