//! What a directory's manifest says: whether it is a workspace root, which
//! kind of project it is, and the command that launches it.
use crate::config::{opt_str, strs};
use crate::text::{
    append_chars, chars_of, contains_seq, contains_str, join_with, joined_with, split_by,
    split_str, split_words, string_of, views, words,
};
use vstd::prelude::*;

verus! {

/// The `workspaces` field of a `package.json`.
pub enum Workspaces {
    Absent,
    /// An array, with its length.
    Array(usize),
    /// An object, with its number of entries.
    Object(usize),
    /// Any other JSON value.
    Other,
}

/// What a `package.json` says that detection reads.
pub struct PackageInfo {
    pub workspaces: Workspaces,
    /// The names under `dependencies` (when it is an object).
    pub dependencies: Vec<String>,
    /// The names under `devDependencies` (when it is an object).
    pub dev_dependencies: Vec<String>,
    /// The `scripts` object, in its order: each name with its command when
    /// that is a string.
    pub scripts: Option<Vec<(String, Option<String>)>>,
}

/// The scripts as names and string commands.
pub open spec fn script_views(v: Seq<(String, Option<String>)>) -> Seq<(Seq<char>, Option<Seq<char>>)> {
    v.map_values(|e: (String, Option<String>)| (e.0@, opt_str(e.1)))
}

pub struct PackageView {
    pub workspaces: Workspaces,
    pub dependencies: Seq<Seq<char>>,
    pub dev_dependencies: Seq<Seq<char>>,
    pub scripts: Option<Seq<(Seq<char>, Option<Seq<char>>)>>,
}

impl PackageInfo {
    pub open spec fn view(&self) -> PackageView {
        PackageView {
            workspaces: self.workspaces,
            dependencies: strs(self.dependencies@),
            dev_dependencies: strs(self.dev_dependencies@),
            scripts: match self.scripts {
                Some(v) => Some(script_views(v@)),
                None => None,
            },
        }
    }
}

// ── reading package.json ───────────────────────────────────────────────────

/// The shape of a JSON value one level down: an array with its length, an
/// object with its entries (each key with its value when that is a string),
/// a string, or anything else.
pub enum JsonShape {
    Array(usize),
    Object(Vec<(String, Option<String>)>),
    Str(String),
    Other,
}

pub enum ShapeView {
    Array(usize),
    Object(Seq<(Seq<char>, Option<Seq<char>>)>),
    Str(Seq<char>),
    Other,
}

impl JsonShape {
    pub open spec fn view(&self) -> ShapeView {
        match self {
            JsonShape::Array(n) => ShapeView::Array(*n),
            JsonShape::Object(v) => ShapeView::Object(script_views(v@)),
            JsonShape::Str(s) => ShapeView::Str(s@),
            JsonShape::Other => ShapeView::Other,
        }
    }
}

pub open spec fn top_views(v: Seq<(String, JsonShape)>) -> Seq<(Seq<char>, ShapeView)> {
    v.map_values(|e: (String, JsonShape)| (e.0@, e.1.view()))
}

/// What `serde_json` reads from `text` when it is a JSON object: its entries
/// in the map's order, each value by its shape; `None` when the text is not
/// JSON or not an object.
pub uninterp spec fn json_object_of(text: Seq<char>) -> Option<Seq<(Seq<char>, ShapeView)>>;

/// `serde_json::from_str` into a `serde_json::Value`, its top-level object
/// read as entries with their shapes. Its result is the named result for
/// `text`.
#[verifier::external_body]
fn json_object(text: &str) -> (r: Option<Vec<(String, JsonShape)>>)
    ensures
        match r {
            Some(v) => json_object_of(text@) == Some(top_views(v@)),
            None => json_object_of(text@).is_none(),
        },
{
    let v: serde_json::Value = serde_json::from_str(text).ok()?;
    Some(v.as_object()?.iter().map(|(k, x)| (k.clone(), match x {
        serde_json::Value::Array(a) => JsonShape::Array(a.len()),
        serde_json::Value::Object(o) => JsonShape::Object(o.iter().map(|(n, y)| (n.clone(), y.as_str().map(|t| t.to_string()))).collect()),
        serde_json::Value::String(t) => JsonShape::Str(t.clone()),
        _ => JsonShape::Other,
    })).collect())
}

/// The shape under key `k`: the first entry with that key.
pub open spec fn entry_of(es: Seq<(Seq<char>, ShapeView)>, k: Seq<char>) -> Option<ShapeView>
    decreases es.len(),
{
    if es.len() == 0 {
        None
    } else if es[0].0 == k {
        Some(es[0].1)
    } else {
        entry_of(es.drop_first(), k)
    }
}

/// The keys of an object entry (none when it is missing or not an object).
pub open spec fn object_keys(e: Option<ShapeView>) -> Seq<Seq<char>> {
    match e {
        Some(ShapeView::Object(o)) => o.map_values(|x: (Seq<char>, Option<Seq<char>>)| x.0),
        _ => Seq::empty(),
    }
}

/// What detection reads of a `package.json` with text `text`: the kind and
/// size of `workspaces`, the keys of `dependencies` and `devDependencies`,
/// and the `scripts` object; nothing when the text is not a JSON object.
pub open spec fn package_of(text: Seq<char>) -> PackageView {
    match json_object_of(text) {
        None => PackageView {
            workspaces: Workspaces::Absent,
            dependencies: Seq::empty(),
            dev_dependencies: Seq::empty(),
            scripts: None,
        },
        Some(es) => PackageView {
            workspaces: match entry_of(es, "workspaces"@) {
                None => Workspaces::Absent,
                Some(ShapeView::Array(n)) => Workspaces::Array(n),
                Some(ShapeView::Object(o)) => Workspaces::Object(o.len() as usize),
                Some(_) => Workspaces::Other,
            },
            dependencies: object_keys(entry_of(es, "dependencies"@)),
            dev_dependencies: object_keys(entry_of(es, "devDependencies"@)),
            scripts: match entry_of(es, "scripts"@) {
                Some(ShapeView::Object(o)) => Some(o),
                _ => None,
            },
        },
    }
}

fn entry_at<'a>(es: &'a Vec<(String, JsonShape)>, k: &str) -> (r: Option<&'a JsonShape>)
    ensures
        match r {
            Some(x) => entry_of(top_views(es@), k@) == Some(x.view()),
            None => entry_of(top_views(es@), k@).is_none(),
        },
{
    let ghost tv = top_views(es@);
    let key = chars_of(k);
    let mut i: usize = 0;
    assert(tv.skip(0) =~= tv);
    while i < es.len()
        invariant
            i <= es@.len(),
            tv == top_views(es@),
            key@ == k@,
            entry_of(tv, k@) == entry_of(tv.skip(i as int), k@),
        decreases es@.len() - i,
    {
        assert(tv.skip(i as int)[0] == (es@[i as int].0@, es@[i as int].1.view()));
        assert(tv.skip(i as int).drop_first() =~= tv.skip(i + 1));
        if crate::text::seq_eq(chars_of(es[i].0.as_str()).as_slice(), key.as_slice()) {
            return Some(&es[i].1);
        }
        i = i + 1;
    }
    None
}

fn keys_of(e: Option<&JsonShape>) -> (r: Vec<String>)
    ensures
        strs(r@) == object_keys(match e {
            Some(x) => Some(x.view()),
            None => None,
        }),
{
    match e {
        Some(JsonShape::Object(o)) => {
            let mut r: Vec<String> = Vec::new();
            let mut i: usize = 0;
            while i < o.len()
                invariant
                    i <= o@.len(),
                    strs(r@) == script_views(o@).take(i as int).map_values(
                        |x: (Seq<char>, Option<Seq<char>>)| x.0,
                    ),
                decreases o@.len() - i,
            {
                let ghost before = strs(r@);
                r.push(o[i].0.clone());
                assert(strs(r@) =~= before.push(o@[i as int].0@));
                assert(script_views(o@).take(i + 1) =~= script_views(o@).take(i as int).push(
                    (o@[i as int].0@, opt_str(o@[i as int].1)),
                ));
                i = i + 1;
            }
            assert(script_views(o@).take(o@.len() as int) =~= script_views(o@));
            r
        },
        _ => {
            assert(strs(Seq::<String>::empty()) =~= Seq::<Seq<char>>::empty());
            Vec::new()
        },
    }
}

fn copy_entries(o: &Vec<(String, Option<String>)>) -> (r: Vec<(String, Option<String>)>)
    ensures
        script_views(r@) == script_views(o@),
{
    let mut r: Vec<(String, Option<String>)> = Vec::new();
    let mut i: usize = 0;
    while i < o.len()
        invariant
            i <= o@.len(),
            script_views(r@) == script_views(o@).take(i as int),
        decreases o@.len() - i,
    {
        let ghost before = script_views(r@);
        let v = crate::config::copy_opt(&o[i].1);
        r.push((o[i].0.clone(), v));
        assert(script_views(r@) =~= before.push((o@[i as int].0@, opt_str(o@[i as int].1))));
        assert(script_views(o@).take(i + 1) =~= script_views(o@).take(i as int).push(
            (o@[i as int].0@, opt_str(o@[i as int].1)),
        ));
        i = i + 1;
    }
    assert(script_views(o@).take(o@.len() as int) =~= script_views(o@));
    r
}

/// What detection reads of a `package.json`, from its text.
pub fn parse_package(text: &str) -> (r: PackageInfo)
    ensures
        r.view() == package_of(text@),
{
    match json_object(text) {
        None => {
            let r = PackageInfo {
                workspaces: Workspaces::Absent,
                dependencies: Vec::new(),
                dev_dependencies: Vec::new(),
                scripts: None,
            };
            assert(strs(r.dependencies@) =~= Seq::<Seq<char>>::empty());
            assert(strs(r.dev_dependencies@) =~= Seq::<Seq<char>>::empty());
            r
        },
        Some(es) => {
            let workspaces = match entry_at(&es, "workspaces") {
                None => Workspaces::Absent,
                Some(JsonShape::Array(n)) => Workspaces::Array(*n),
                Some(JsonShape::Object(o)) => Workspaces::Object(o.len()),
                Some(_) => Workspaces::Other,
            };
            let dependencies = keys_of(entry_at(&es, "dependencies"));
            let dev_dependencies = keys_of(entry_at(&es, "devDependencies"));
            let scripts = match entry_at(&es, "scripts") {
                Some(JsonShape::Object(o)) => Some(copy_entries(o)),
                _ => None,
            };
            PackageInfo { workspaces, dependencies, dev_dependencies, scripts }
        },
    }
}

/// Which of the files that detection looks at exist in a directory.
pub struct DirFiles {
    pub package_json: bool,
    pub pnpm_workspace_yaml: bool,
    pub turbo_json: bool,
    pub lerna_json: bool,
    pub nx_json: bool,
    pub cargo_toml: bool,
    pub pyproject_toml: bool,
    pub requirements_txt: bool,
    pub setup_py: bool,
    pub go_mod: bool,
    pub index_html: bool,
    pub manage_py: bool,
    pub main_py: bool,
    pub app_py: bool,
}

/// A monorepo or workspace root: a pnpm workspace file, a monorepo tool
/// config, or a non-empty `workspaces` field in `package.json`.
pub open spec fn workspace_root(f: DirFiles, pkg: PackageInfo) -> bool {
    ||| f.pnpm_workspace_yaml
    ||| f.turbo_json
    ||| f.lerna_json
    ||| f.nx_json
    ||| (pkg.workspaces matches Workspaces::Array(n) && n > 0)
    ||| (pkg.workspaces matches Workspaces::Object(n) && n > 0)
}

pub fn is_workspace_root(f: &DirFiles, pkg: &PackageInfo) -> (r: bool)
    ensures
        r == workspace_root(*f, *pkg),
{
    if f.pnpm_workspace_yaml || f.turbo_json || f.lerna_json || f.nx_json {
        return true;
    }
    match pkg.workspaces {
        Workspaces::Array(n) => n > 0,
        Workspaces::Object(n) => n > 0,
        _ => false,
    }
}

/// Whether the package depends (or dev-depends) on `name`.
pub open spec fn has_dep(pkg: PackageInfo, name: Seq<char>) -> bool {
    strs(pkg.dependencies@).contains(name) || strs(pkg.dev_dependencies@).contains(name)
}

fn string_in(v: &Vec<String>, s: &str) -> (r: bool)
    ensures
        r == strs(v@).contains(s@),
{
    let sc = chars_of(s);
    let mut i: usize = 0;
    while i < v.len()
        invariant
            i <= v@.len(),
            sc@ == s@,
            forall|j: int| 0 <= j < i ==> (#[trigger] strs(v@)[j]) != s@,
        decreases v@.len() - i,
    {
        if crate::text::seq_eq(chars_of(v[i].as_str()).as_slice(), sc.as_slice()) {
            assert(strs(v@)[i as int] == s@);
            return true;
        }
        i = i + 1;
    }
    false
}

fn depends_on(pkg: &PackageInfo, name: &str) -> (r: bool)
    ensures
        r == has_dep(*pkg, name@),
{
    string_in(&pkg.dependencies, name) || string_in(&pkg.dev_dependencies, name)
}

/// The web frameworks recognised, most specific first (Next is also a
/// React app), each with its label.
pub open spec fn frameworks() -> Seq<(Seq<char>, Seq<char>)> {
    seq![
        ("next"@, "Next"@),
        ("nuxt"@, "Nuxt"@),
        ("sveltekit"@, "Svelte"@),
        ("astro"@, "Astro"@),
        ("gatsby"@, "Gatsby"@),
        ("react"@, "React"@),
        ("vue"@, "Vue"@),
        ("svelte"@, "Svelte"@),
        ("angular"@, "Angular"@),
        ("preact"@, "Preact"@),
        ("solid-js"@, "Solid"@),
        ("qwik"@, "Qwik"@),
    ]
}

/// The label of the first of `fs` the package depends on.
pub open spec fn first_framework(pkg: PackageInfo, fs: Seq<(Seq<char>, Seq<char>)>) -> Option<Seq<char>>
    decreases fs.len(),
{
    if fs.len() == 0 {
        None
    } else if has_dep(pkg, fs[0].0) {
        Some(fs[0].1)
    } else {
        first_framework(pkg, fs.drop_first())
    }
}

/// The kind of a Node project: its framework, else `Vite` for Vite-only
/// tooling, else `HTML` for a plain page, else `Node`.
pub open spec fn node_category(pkg: PackageInfo, index_html: bool) -> Seq<char> {
    match first_framework(pkg, frameworks()) {
        Some(l) => l,
        None => if has_dep(pkg, "vite"@) {
            "Vite"@
        } else if index_html {
            "HTML"@
        } else {
            "Node"@
        },
    }
}

pub fn detect_node_category(pkg: &PackageInfo, index_html: bool) -> (r: String)
    ensures
        r@ == node_category(*pkg, index_html),
{
    let ghost fs = frameworks();
    proof {
        reveal_with_fuel(first_framework, 13);
        assert(fs.drop_first() =~= seq![
            ("nuxt"@, "Nuxt"@),
            ("sveltekit"@, "Svelte"@),
            ("astro"@, "Astro"@),
            ("gatsby"@, "Gatsby"@),
            ("react"@, "React"@),
            ("vue"@, "Vue"@),
            ("svelte"@, "Svelte"@),
            ("angular"@, "Angular"@),
            ("preact"@, "Preact"@),
            ("solid-js"@, "Solid"@),
            ("qwik"@, "Qwik"@),
        ]);
        assert(fs.drop_first().drop_first().drop_first().drop_first().drop_first().drop_first().drop_first().drop_first().drop_first().drop_first().drop_first() =~= seq![("qwik"@, "Qwik"@)]);
        assert(fs.drop_first().drop_first().drop_first().drop_first().drop_first().drop_first().drop_first().drop_first().drop_first().drop_first().drop_first().drop_first() =~= Seq::<(Seq<char>, Seq<char>)>::empty());
    }
    let label: &str = if depends_on(pkg, "next") {
        "Next"
    } else if depends_on(pkg, "nuxt") {
        "Nuxt"
    } else if depends_on(pkg, "sveltekit") {
        "Svelte"
    } else if depends_on(pkg, "astro") {
        "Astro"
    } else if depends_on(pkg, "gatsby") {
        "Gatsby"
    } else if depends_on(pkg, "react") {
        "React"
    } else if depends_on(pkg, "vue") {
        "Vue"
    } else if depends_on(pkg, "svelte") {
        "Svelte"
    } else if depends_on(pkg, "angular") {
        "Angular"
    } else if depends_on(pkg, "preact") {
        "Preact"
    } else if depends_on(pkg, "solid-js") {
        "Solid"
    } else if depends_on(pkg, "qwik") {
        "Qwik"
    } else if depends_on(pkg, "vite") {
        "Vite"
    } else if index_html {
        "HTML"
    } else {
        "Node"
    };
    crate::text::copy_str(label)
}

// ── launch commands ────────────────────────────────────────────────────────

#[derive(Clone, Copy, PartialEq, Eq, Debug)]
pub enum PackageManager {
    Npm,
    Pnpm,
    Yarn,
}

pub open spec fn pm_name(pm: PackageManager) -> Seq<char> {
    match pm {
        PackageManager::Npm => "npm"@,
        PackageManager::Pnpm => "pnpm"@,
        PackageManager::Yarn => "yarn"@,
    }
}

fn pm_text(pm: PackageManager) -> (r: Vec<char>)
    ensures
        r@ == pm_name(pm),
{
    match pm {
        PackageManager::Npm => chars_of("npm"),
        PackageManager::Pnpm => chars_of("pnpm"),
        PackageManager::Yarn => chars_of("yarn"),
    }
}

/// The package manager of a project, from its directory and each ancestor
/// in turn (nearest first), each as (has `pnpm-lock.yaml`, has
/// `yarn.lock`): the first lockfile found decides; npm when there is none.
pub open spec fn package_manager_of(locks: Seq<(bool, bool)>) -> PackageManager
    decreases locks.len(),
{
    if locks.len() == 0 {
        PackageManager::Npm
    } else if locks[0].0 {
        PackageManager::Pnpm
    } else if locks[0].1 {
        PackageManager::Yarn
    } else {
        package_manager_of(locks.drop_first())
    }
}

/// A directory without a lockfile defers to its ancestors: the package
/// manager of a list that starts with no lockfile is that of the rest.
/// And the nearest lockfile decides: a pnpm lock with no lockfile nearer
/// gives pnpm, a yarn lock (without a pnpm lock beside it) with no lockfile
/// nearer gives yarn, and no lockfile anywhere gives npm.
pub proof fn law_nearest_lockfile_decides(locks: Seq<(bool, bool)>, rest: Seq<(bool, bool)>, i: int)
    ensures
        package_manager_of(seq![(false, false)] + rest) == package_manager_of(rest),
        0 <= i < locks.len() && (forall|j: int| 0 <= j < i ==> !(#[trigger] locks[j]).0 && !locks[j].1) ==> {
            &&& locks[i].0 ==> package_manager_of(locks) == PackageManager::Pnpm
            &&& !locks[i].0 && locks[i].1 ==> package_manager_of(locks) == PackageManager::Yarn
        },
        (forall|j: int| 0 <= j < locks.len() ==> !(#[trigger] locks[j]).0 && !locks[j].1) ==> package_manager_of(
            locks,
        ) == PackageManager::Npm,
    decreases locks.len(),
{
    assert((seq![(false, false)] + rest).drop_first() =~= rest);
    if locks.len() > 0 {
        let t = locks.drop_first();
        law_nearest_lockfile_decides(t, rest, i - 1);
        if 0 < i < locks.len() && (forall|j: int| 0 <= j < i ==> !(#[trigger] locks[j]).0 && !locks[j].1) {
            assert(!locks[0].0 && !locks[0].1);
            assert forall|j: int| 0 <= j < i - 1 implies !(#[trigger] t[j]).0 && !t[j].1 by {
                assert(t[j] == locks[j + 1]);
            }
            assert(t[i - 1] == locks[i]);
        }
        if forall|j: int| 0 <= j < locks.len() ==> !(#[trigger] locks[j]).0 && !locks[j].1 {
            assert(!locks[0].0 && !locks[0].1);
            assert forall|j: int| 0 <= j < t.len() implies !(#[trigger] t[j]).0 && !t[j].1 by {
                assert(t[j] == locks[j + 1]);
            }
        }
    }
}

pub fn package_manager(locks: &[(bool, bool)]) -> (r: PackageManager)
    ensures
        r == package_manager_of(locks@),
{
    let mut i: usize = 0;
    assert(locks@.skip(0) =~= locks@);
    while i < locks.len()
        invariant
            i <= locks@.len(),
            package_manager_of(locks@) == package_manager_of(locks@.skip(i as int)),
        decreases locks@.len() - i,
    {
        assert(locks@.skip(i as int)[0] == locks@[i as int]);
        assert(locks@.skip(i as int).drop_first() =~= locks@.skip(i + 1));
        if locks[i].0 {
            return PackageManager::Pnpm;
        }
        if locks[i].1 {
            return PackageManager::Yarn;
        }
        i = i + 1;
    }
    PackageManager::Npm
}

/// The string commands of the scripts.
pub open spec fn script_commands(scripts: Seq<(String, Option<String>)>) -> Seq<Seq<char>>
    decreases scripts.len(),
{
    if scripts.len() == 0 {
        Seq::empty()
    } else {
        let r = script_commands(scripts.drop_last());
        match scripts.last().1 {
            Some(c) => r.push(c@),
            None => r,
        }
    }
}

/// Whether some script command uses `runner`.
pub open spec fn uses_runner(pkg: PackageInfo, runner: Seq<char>) -> bool {
    match pkg.scripts {
        Some(s) => exists|i: int|
            0 <= i < script_commands(s@).len() && contains_seq(#[trigger] script_commands(s@)[i], runner),
        None => false,
    }
}

/// Whether the package has a script named `name`.
pub open spec fn has_script(pkg: PackageInfo, name: Seq<char>) -> bool {
    match pkg.scripts {
        Some(s) => exists|i: int| 0 <= i < s@.len() && (#[trigger] s@[i]).0@ == name,
        None => false,
    }
}

/// `s` without its leading and trailing quote characters.
pub open spec fn unquoted_token(s: Seq<char>) -> Seq<char>
    decreases s.len(),
{
    if s.len() > 0 && (s[0] == '\'' || s[0] == '"') {
        unquoted_token(s.drop_first())
    } else if s.len() > 0 && (s.last() == '\'' || s.last() == '"') {
        unquoted_token(s.drop_last())
    } else {
        s
    }
}

/// The first word of each piece of `cmd` split at `--prefix`, unquoted,
/// when not empty.
pub open spec fn prefix_tokens(pieces: Seq<Seq<char>>) -> Seq<Seq<char>>
    decreases pieces.len(),
{
    if pieces.len() == 0 {
        Seq::empty()
    } else {
        let r = prefix_tokens(pieces.drop_last());
        let w = words(pieces.last());
        let t = unquoted_token(
            if w.len() > 0 {
                w[0]
            } else {
                Seq::empty()
            },
        );
        if t.len() > 0 {
            r.push(t)
        } else {
            r
        }
    }
}

/// The directories the scripts name after `--prefix` (and the first word of
/// each command), in order, as candidates to install into.
pub open spec fn prefix_candidates_of(cmds: Seq<Seq<char>>) -> Seq<Seq<char>>
    decreases cmds.len(),
{
    if cmds.len() == 0 {
        Seq::empty()
    } else {
        prefix_candidates_of(cmds.drop_last()) + prefix_tokens(split_str(cmds.last(), "--prefix"@))
    }
}

pub open spec fn prefix_candidates_in(pkg: PackageInfo) -> Seq<Seq<char>> {
    match pkg.scripts {
        Some(s) => prefix_candidates_of(script_commands(s@)),
        None => Seq::empty(),
    }
}

/// The candidates that exist as packages, each once, in order.
pub open spec fn kept_dirs(cands: Seq<Seq<char>>, exists: Seq<bool>) -> Seq<Seq<char>>
    decreases cands.len(),
{
    if cands.len() == 0 {
        Seq::empty()
    } else {
        let r = kept_dirs(cands.drop_last(), exists.drop_last());
        if exists[cands.len() - 1] && !r.contains(cands.last()) {
            r.push(cands.last())
        } else {
            r
        }
    }
}

pub open spec fn install_step(pm: PackageManager) -> Seq<char> {
    "if [ ! -d node_modules ]; then "@ + pm_name(pm) + " install; fi"@
}

pub open spec fn dir_install_step(d: Seq<char>, pm: PackageManager) -> Seq<char> {
    "(cd "@ + d + " && if [ ! -d node_modules ]; then "@ + pm_name(pm) + " install; fi)"@
}

/// The steps run before the launch: install when `node_modules` is
/// missing; with npm, install an undeclared `concurrently` or `npm-run-all`
/// that a script uses; install in each `--prefix` package directory.
pub open spec fn pre_steps(pkg: PackageInfo, pm: PackageManager, dirs: Seq<Seq<char>>) -> Seq<Seq<char>> {
    let a = seq![install_step(pm)];
    let b = if uses_runner(pkg, "concurrently"@) && !has_dep(pkg, "concurrently"@) && pm
        == PackageManager::Npm {
        a.push(
            "if [ ! -x node_modules/.bin/concurrently ]; then npm install --no-save concurrently; fi"@,
        )
    } else {
        a
    };
    let c = if uses_runner(pkg, "npm-run-all"@) && !has_dep(pkg, "npm-run-all"@) && pm
        == PackageManager::Npm {
        b.push(
            "if [ ! -x node_modules/.bin/npm-run-all ]; then npm install --no-save npm-run-all; fi"@,
        )
    } else {
        b
    };
    c + dirs.map_values(|d: Seq<char>| dir_install_step(d, pm))
}

/// The launch: the `dev` script, else `start`, else `dev`.
pub open spec fn run_step(pkg: PackageInfo, pm: PackageManager) -> Seq<char> {
    if has_script(pkg, "dev"@) {
        pm_name(pm) + " run dev"@
    } else if has_script(pkg, "start"@) {
        pm_name(pm) + " run start"@
    } else {
        pm_name(pm) + " run dev"@
    }
}

/// The self-healing launch command of a Node project: the steps before the
/// launch and the launch, joined with `&&`. `exists` says of each
/// candidate `--prefix` directory whether it holds a `package.json`.
pub open spec fn node_command(pkg: PackageInfo, pm: PackageManager, exists: Seq<bool>) -> Seq<char> {
    joined_with(
        pre_steps(pkg, pm, kept_dirs(prefix_candidates_in(pkg), exists)),
        " && "@,
    ) + " && "@ + run_step(pkg, pm)
}

fn script_cmds(scripts: &Vec<(String, Option<String>)>) -> (r: Vec<Vec<char>>)
    ensures
        views(r@) == script_commands(scripts@),
{
    let mut r: Vec<Vec<char>> = Vec::new();
    let mut i: usize = 0;
    while i < scripts.len()
        invariant
            i <= scripts@.len(),
            views(r@) == script_commands(scripts@.take(i as int)),
        decreases scripts@.len() - i,
    {
        proof {
            assert(scripts@.take(i + 1).drop_last() =~= scripts@.take(i as int));
            assert(scripts@.take(i + 1).last() == scripts@[i as int]);
        }
        match &scripts[i].1 {
            Some(c) => {
                let ghost before = views(r@);
                r.push(chars_of(c.as_str()));
                assert(views(r@) =~= before.push(c@));
            },
            None => {},
        }
        i = i + 1;
    }
    assert(scripts@.take(scripts@.len() as int) =~= scripts@);
    r
}

fn unquote(s: &[char]) -> (r: Vec<char>)
    ensures
        r@ == unquoted_token(s@),
{
    let mut a: usize = 0;
    let b: usize = s.len();
    assert(s@.subrange(0, s@.len() as int) =~= s@);
    while a < b && (s[a] == '\'' || s[a] == '"')
        invariant
            a <= b == s@.len(),
            unquoted_token(s@) == unquoted_token(s@.subrange(a as int, b as int)),
        decreases b - a,
    {
        assert(s@.subrange(a as int, b as int).drop_first() =~= s@.subrange(a + 1, b as int));
        a = a + 1;
    }
    let mut e = b;
    while a < e && (s[e - 1] == '\'' || s[e - 1] == '"')
        invariant
            a <= e <= s@.len(),
            a < e ==> !(s@[a as int] == '\'' || s@[a as int] == '"'),
            unquoted_token(s@) == unquoted_token(s@.subrange(a as int, e as int)),
        decreases e - a,
    {
        let ghost t = s@.subrange(a as int, e as int);
        assert(t[0] == s@[a as int]);
        assert(t.last() == s@[e - 1]);
        assert(t.drop_last() =~= s@.subrange(a as int, e - 1));
        e = e - 1;
    }
    proof {
        let t = s@.subrange(a as int, e as int);
        if a < e {
            assert(t[0] == s@[a as int]);
            assert(t.last() == s@[e - 1]);
        }
    }
    crate::text::slice_vec(s, a, e)
}

fn tokens_of(cmd: &[char], out: &mut Vec<Vec<char>>)
    ensures
        views(final(out)@) == views(old(out)@) + prefix_tokens(split_str(cmd@, "--prefix"@)),
{
    let sep = chars_of("--prefix");
    proof {
        reveal_strlit("--prefix");
    }
    let pieces = split_by(cmd, sep.as_slice());
    let ghost pv = views(pieces@);
    let ghost base = views(out@);
    let mut i: usize = 0;
    assert(pv.take(0) =~= Seq::<Seq<char>>::empty());
    assert(base + prefix_tokens(Seq::<Seq<char>>::empty()) =~= base);
    while i < pieces.len()
        invariant
            i <= pieces@.len(),
            pv == views(pieces@),
            pv == split_str(cmd@, "--prefix"@),
            views(out@) == base + prefix_tokens(pv.take(i as int)),
        decreases pieces@.len() - i,
    {
        proof {
            assert(pv.take(i + 1).drop_last() =~= pv.take(i as int));
            assert(pv.take(i + 1).last() == pieces@[i as int]@);
        }
        let ws = split_words(pieces[i].as_slice());
        let first: Vec<char> = if ws.len() > 0 {
            assert(views(ws@)[0] == ws@[0]@);
            ws[0].clone()
        } else {
            Vec::new()
        };
        let t = unquote(first.as_slice());
        if t.len() > 0 {
            let ghost before = views(out@);
            out.push(t);
            assert(views(out@) =~= before.push(t@));
        }
        i = i + 1;
    }
    assert(pv.take(pv.len() as int) =~= pv);
}

/// The candidate `--prefix` directories of a package's scripts, whose
/// existence as packages decides which are installed into.
pub fn prefix_candidates(pkg: &PackageInfo) -> (r: Vec<String>)
    ensures
        strs(r@) == prefix_candidates_in(*pkg),
{
    let mut out: Vec<Vec<char>> = Vec::new();
    match &pkg.scripts {
        None => {},
        Some(s) => {
            let cmds = script_cmds(s);
            let ghost cv = views(cmds@);
            let mut i: usize = 0;
            assert(cv.take(0) =~= Seq::<Seq<char>>::empty());
            while i < cmds.len()
                invariant
                    i <= cmds@.len(),
                    cv == views(cmds@),
                    views(out@) == prefix_candidates_of(cv.take(i as int)),
                decreases cmds@.len() - i,
            {
                proof {
                    assert(cv.take(i + 1).drop_last() =~= cv.take(i as int));
                    assert(cv.take(i + 1).last() == cmds@[i as int]@);
                }
                tokens_of(cmds[i].as_slice(), &mut out);
                i = i + 1;
            }
            assert(cv.take(cv.len() as int) =~= cv);
        },
    }
    let mut r: Vec<String> = Vec::new();
    let mut k: usize = 0;
    while k < out.len()
        invariant
            k <= out@.len(),
            strs(r@) == views(out@).take(k as int),
        decreases out@.len() - k,
    {
        let ghost before = strs(r@);
        r.push(string_of(out[k].as_slice()));
        assert(strs(r@) =~= before.push(out@[k as int]@));
        assert(views(out@).take(k + 1) =~= views(out@).take(k as int).push(out@[k as int]@));
        k = k + 1;
    }
    assert(views(out@).take(out@.len() as int) =~= views(out@));
    r
}

fn any_uses(cmds: &Vec<Vec<char>>, runner: &str) -> (r: bool)
    ensures
        r == exists|i: int| 0 <= i < cmds@.len() && contains_seq(#[trigger] views(cmds@)[i], runner@),
{
    let mut i: usize = 0;
    while i < cmds.len()
        invariant
            i <= cmds@.len(),
            forall|j: int| 0 <= j < i ==> !contains_seq(#[trigger] views(cmds@)[j], runner@),
        decreases cmds@.len() - i,
    {
        assert(views(cmds@)[i as int] == cmds@[i as int]@);
        if contains_str(cmds[i].as_slice(), runner) {
            return true;
        }
        i = i + 1;
    }
    false
}

fn has_script_named(pkg: &PackageInfo, name: &str) -> (r: bool)
    ensures
        r == has_script(*pkg, name@),
{
    match &pkg.scripts {
        None => false,
        Some(s) => {
            let nc = chars_of(name);
            let mut i: usize = 0;
            while i < s.len()
                invariant
                    i <= s@.len(),
                    nc@ == name@,
                    pkg.scripts == Some(*s),
                    forall|j: int| 0 <= j < i ==> (#[trigger] s@[j]).0@ != name@,
                decreases s@.len() - i,
            {
                if crate::text::seq_eq(chars_of(s[i].0.as_str()).as_slice(), nc.as_slice()) {
                    assert((s@[i as int]).0@ == name@);
                    let ghost sc = pkg.scripts->0;
                    assert(sc == *s);
                    assert(sc@[i as int].0@ == name@);
                    assert(has_script(*pkg, name@));
                    return true;
                }
                i = i + 1;
            }
            false
        },
    }
}

/// The launch command of a Node project managed by `pm`. `exists[i]` says
/// whether the `i`-th of `prefix_candidates(pkg)` holds a `package.json`.
pub fn detect_node_cmd(pkg: &PackageInfo, pm: PackageManager, exists: &[bool]) -> (r: String)
    requires
        exists@.len() == prefix_candidates_in(*pkg).len(),
    ensures
        r@ == node_command(*pkg, pm, exists@),
{
    let pmt = pm_text(pm);
    let mut steps: Vec<Vec<char>> = Vec::new();
    let mut s0 = chars_of("if [ ! -d node_modules ]; then ");
    append_chars(&mut s0, pmt.as_slice());
    append_chars(&mut s0, chars_of(" install; fi").as_slice());
    steps.push(s0);
    let cmds: Vec<Vec<char>> = match &pkg.scripts {
        Some(s) => script_cmds(s),
        None => Vec::new(),
    };
    proof {
        if pkg.scripts is None {
            assert(views(cmds@) =~= Seq::<Seq<char>>::empty());
        }
    }
    let uses_c = pkg.scripts.is_some() && any_uses(&cmds, "concurrently");
    let uses_a = pkg.scripts.is_some() && any_uses(&cmds, "npm-run-all");
    let is_npm = match pm {
        PackageManager::Npm => true,
        _ => false,
    };
    if uses_c && !depends_on(pkg, "concurrently") && is_npm {
        steps.push(
            chars_of(
                "if [ ! -x node_modules/.bin/concurrently ]; then npm install --no-save concurrently; fi",
            ),
        );
    }
    if uses_a && !depends_on(pkg, "npm-run-all") && is_npm {
        steps.push(
            chars_of(
                "if [ ! -x node_modules/.bin/npm-run-all ]; then npm install --no-save npm-run-all; fi",
            ),
        );
    }
    let ghost head = views(steps@);
    // the prefix directories that hold packages, each once
    let cands = prefix_candidates(pkg);
    let ghost cv = strs(cands@);
    let mut dirs: Vec<Vec<char>> = Vec::new();
    let mut i: usize = 0;
    assert(cv.take(0) =~= Seq::<Seq<char>>::empty());
    assert(views(dirs@) =~= kept_dirs(Seq::<Seq<char>>::empty(), Seq::<bool>::empty()));
    while i < cands.len()
        invariant
            i <= cands@.len(),
            cv == strs(cands@),
            exists@.len() == cv.len(),
            views(dirs@) == kept_dirs(cv.take(i as int), exists@.take(i as int)),
        decreases cands@.len() - i,
    {
        proof {
            assert(cv.take(i + 1).drop_last() =~= cv.take(i as int));
            assert(exists@.take(i + 1).drop_last() =~= exists@.take(i as int));
            assert(cv.take(i + 1).last() == cands@[i as int]@);
            assert(exists@.take(i + 1)[i as int] == exists@[i as int]);
        }
        if exists[i] {
            let c = chars_of(cands[i].as_str());
            let mut seen = false;
            let mut k: usize = 0;
            while k < dirs.len()
                invariant
                    k <= dirs@.len(),
                    seen == exists|q: int| 0 <= q < k && views(dirs@)[q] == c@,
                decreases dirs@.len() - k,
            {
                if crate::text::seq_eq(dirs[k].as_slice(), c.as_slice()) {
                    seen = true;
                }
                assert(views(dirs@)[k as int] == dirs@[k as int]@);
                k = k + 1;
            }
            assert(seen == views(dirs@).contains(c@));
            if !seen {
                let ghost before = views(dirs@);
                dirs.push(c);
                assert(views(dirs@) =~= before.push(cands@[i as int]@));
            }
        }
        i = i + 1;
    }
    assert(cv.take(cv.len() as int) =~= cv);
    assert(exists@.take(exists@.len() as int) =~= exists@);
    let ghost kept = views(dirs@);
    let mut k: usize = 0;
    while k < dirs.len()
        invariant
            k <= dirs@.len(),
            kept == views(dirs@),
            pmt@ == pm_name(pm),
            views(steps@) == head + kept.take(k as int).map_values(|d: Seq<char>| dir_install_step(d, pm)),
        decreases dirs@.len() - k,
    {
        let mut st = chars_of("(cd ");
        append_chars(&mut st, dirs[k].as_slice());
        append_chars(&mut st, chars_of(" && if [ ! -d node_modules ]; then ").as_slice());
        append_chars(&mut st, pmt.as_slice());
        append_chars(&mut st, chars_of(" install; fi)").as_slice());
        let ghost before = views(steps@);
        steps.push(st);
        assert(views(steps@) =~= before.push(dir_install_step(kept[k as int], pm)));
        assert(kept.take(k + 1).map_values(|d: Seq<char>| dir_install_step(d, pm)) =~= kept.take(
            k as int,
        ).map_values(|d: Seq<char>| dir_install_step(d, pm)).push(dir_install_step(kept[k as int], pm)));
        k = k + 1;
    }
    assert(kept.take(kept.len() as int) =~= kept);
    proof {
        let uc = uses_runner(*pkg, "concurrently"@);
        let ua = uses_runner(*pkg, "npm-run-all"@);
        assert(uses_c == uc);
        assert(uses_a == ua);
        assert(views(steps@) == pre_steps(*pkg, pm, kept));
    }
    let mut out = join_with(steps.as_slice(), chars_of(" && ").as_slice());
    append_chars(&mut out, chars_of(" && ").as_slice());
    append_chars(&mut out, pmt.as_slice());
    if has_script_named(pkg, "dev") {
        append_chars(&mut out, chars_of(" run dev").as_slice());
    } else if has_script_named(pkg, "start") {
        append_chars(&mut out, chars_of(" run start").as_slice());
    } else {
        append_chars(&mut out, chars_of(" run dev").as_slice());
    }
    string_of(out.as_slice())
}

/// The launch command of a Python project: Django's server, else the
/// `main.py` or `app.py` script, else Flask.
pub open spec fn python_command(f: DirFiles) -> Seq<char> {
    if f.manage_py {
        "python manage.py runserver"@
    } else if f.main_py {
        "python main.py"@
    } else if f.app_py {
        "python app.py"@
    } else {
        "python -m flask run"@
    }
}

pub fn detect_py_cmd(f: &DirFiles) -> (r: String)
    ensures
        r@ == python_command(*f),
{
    let s: &str = if f.manage_py {
        "python manage.py runserver"
    } else if f.main_py {
        "python main.py"
    } else if f.app_py {
        "python app.py"
    } else {
        "python -m flask run"
    };
    crate::text::copy_str(s)
}

/// The manifest a directory has, as (category, launch command): Node,
/// Rust, Python, Go or a plain HTML page, in that order of precedence.
pub open spec fn manifest_of(f: DirFiles, pkg: PackageInfo, pm: PackageManager, exists: Seq<bool>) -> Option<
    (Seq<char>, Seq<char>),
> {
    if f.package_json {
        Some((node_category(pkg, f.index_html), node_command(pkg, pm, exists)))
    } else if f.cargo_toml {
        Some(("Rust"@, "cargo run"@))
    } else if f.pyproject_toml || f.requirements_txt || f.setup_py {
        Some(("Python"@, python_command(f)))
    } else if f.go_mod {
        Some(("Go"@, "go run ."@))
    } else if f.index_html {
        Some(("HTML"@, Seq::empty()))
    } else {
        None
    }
}

pub fn detect_manifest(f: &DirFiles, pkg: &PackageInfo, pm: PackageManager, exists: &[bool]) -> (r: Option<(String, String)>)
    requires
        f.package_json ==> exists@.len() == prefix_candidates_in(*pkg).len(),
    ensures
        match r {
            Some((c, cmd)) => manifest_of(*f, *pkg, pm, exists@) == Some((c@, cmd@)),
            None => manifest_of(*f, *pkg, pm, exists@).is_none(),
        },
{
    if f.package_json {
        Some((detect_node_category(pkg, f.index_html), detect_node_cmd(pkg, pm, exists)))
    } else if f.cargo_toml {
        Some((crate::text::copy_str("Rust"), crate::text::copy_str("cargo run")))
    } else if f.pyproject_toml || f.requirements_txt || f.setup_py {
        Some((crate::text::copy_str("Python"), detect_py_cmd(f)))
    } else if f.go_mod {
        Some((crate::text::copy_str("Go"), crate::text::copy_str("go run .")))
    } else if f.index_html {
        Some((crate::text::copy_str("HTML"), String::new()))
    } else {
        None
    }
}

} // verus!
