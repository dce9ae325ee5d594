//! The projects a scan found, as offered to the user: unique ids, names,
//! the order they are listed in, and the picker over them.
use super::manifest::{manifest_of, DirFiles, PackageInfo, PackageManager, detect_manifest, prefix_candidates_in};
use super::names::{library_leaf, is_library_leaf, is_old_version, member_bases, old_version, runnable_member_bases, skipped_name, is_skipped};
use crate::keys::KeyCode;
use crate::num::{decimal, lemma_decimal_parses, push_decimal, digits_value};
use crate::text::{append_chars, chars_of, seq_less, string_of};
use crate::unicode::{str_lower, to_lowercase};
use vstd::prelude::*;

verus! {

#[derive(Clone, Debug)]
pub struct DetectCandidate {
    pub id: String,
    pub name: String,
    pub path: String,
    /// Best-guess launch command (empty string if unknown).
    pub command: String,
    /// Category: "Rust", "Python", "Go", "HTML", or a Node flavor
    /// ("React", "Vue", "Svelte", "Next", "Vite", "Node", ...).
    pub category: String,
}

pub struct CandidateView {
    pub id: Seq<char>,
    pub name: Seq<char>,
    pub path: Seq<char>,
    pub command: Seq<char>,
    pub category: Seq<char>,
}

impl View for DetectCandidate {
    type V = CandidateView;

    open spec fn view(&self) -> CandidateView {
        CandidateView {
            id: self.id@,
            name: self.name@,
            path: self.path@,
            command: self.command@,
            category: self.category@,
        }
    }
}

impl DetectCandidate {
    pub fn copy(&self) -> (r: Self)
        ensures
            r@ == self@,
    {
        DetectCandidate {
            id: self.id.clone(),
            name: self.name.clone(),
            path: self.path.clone(),
            command: self.command.clone(),
            category: self.category.clone(),
        }
    }
}

/// What the picker asks of the app.
pub enum DetectAction {
    NoAction,
    Close,
    Add(DetectCandidate),
}

// ── ids ────────────────────────────────────────────────────────────────────

/// The `k`-th id tried for `base`: `base`, then `base-2`, `base-3`, ...
pub open spec fn id_candidate(base: Seq<char>, k: nat) -> Seq<char> {
    if k == 0 {
        base
    } else {
        base + "-"@ + decimal(k + 1)
    }
}

proof fn lemma_id_candidates_distinct(base: Seq<char>, a: nat, b: nat)
    requires
        a != b,
    ensures
        id_candidate(base, a) != id_candidate(base, b),
{
    reveal_strlit("-");
    lemma_decimal_parses(a + 1);
    lemma_decimal_parses(b + 1);
    if a > 0 && b > 0 {
        if id_candidate(base, a) == id_candidate(base, b) {
            let n = base.len() + 1;
            assert(id_candidate(base, a).skip(n as int) =~= decimal(a + 1));
            assert(id_candidate(base, b).skip(n as int) =~= decimal(b + 1));
            assert(digits_value(decimal(a + 1)) == digits_value(decimal(b + 1)));
        }
    } else if a == 0 {
        assert(id_candidate(base, b).len() > base.len());
    } else {
        assert(id_candidate(base, a).len() > base.len());
    }
}

/// At most `ids.len()` of the candidates can be taken.
proof fn lemma_id_candidates_bound(base: Seq<char>, ids: Seq<Seq<char>>, k: nat)
    requires
        forall|j: nat| j <= k ==> ids.contains(#[trigger] id_candidate(base, j)),
    ensures
        k + 1 <= ids.len(),
{
    broadcast use vstd::seq_lib::seq_to_set_is_finite;

    let c = Seq::new(k + 1, |j: int| id_candidate(base, j as nat));
    assert forall|i: int, j: int| 0 <= i < c.len() && 0 <= j < c.len() && i != j implies c[i] != c[j] by {
        lemma_id_candidates_distinct(base, i as nat, j as nat);
    }
    assert(c.no_duplicates());
    c.unique_seq_to_set();
    ids.lemma_cardinality_of_set();
    assert forall|x: Seq<char>| c.to_set().contains(x) implies ids.to_set().contains(x) by {
        let i = choose|i: int| 0 <= i < c.len() && c[i] == x;
        assert(ids.contains(id_candidate(base, i as nat)));
    }
    vstd::set_lib::lemma_len_subset(c.to_set(), ids.to_set());
}

fn contains_chars(ids: &Vec<Vec<char>>, s: &[char]) -> (r: bool)
    ensures
        r == crate::text::views(ids@).contains(s@),
{
    let mut i: usize = 0;
    while i < ids.len()
        invariant
            i <= ids@.len(),
            forall|j: int| 0 <= j < i ==> (#[trigger] crate::text::views(ids@)[j]) != s@,
        decreases ids@.len() - i,
    {
        if crate::text::seq_eq(ids[i].as_slice(), s) {
            assert(crate::text::views(ids@)[i as int] == s@);
            return true;
        }
        i = i + 1;
    }
    false
}

/// An id unique among `out`: the first of `base`, `base-2`, `base-3`, ...
/// that no candidate has.
pub fn make_id(base: &str, out: &[DetectCandidate]) -> (r: String)
    requires
        out@.len() < usize::MAX,
    ensures
        exists|k: nat|
            r@ == id_candidate(base@, k) && !out@.map_values(|c: DetectCandidate| c.id@).contains(r@)
                && forall|j: nat| j < k ==> out@.map_values(|c: DetectCandidate| c.id@).contains(
                #[trigger] id_candidate(base@, j),
            ),
{
    let ghost ids = out@.map_values(|c: DetectCandidate| c.id@);
    let mut taken: Vec<Vec<char>> = Vec::new();
    let mut i: usize = 0;
    while i < out.len()
        invariant
            i <= out@.len(),
            ids == out@.map_values(|c: DetectCandidate| c.id@),
            crate::text::views(taken@) == ids.take(i as int),
        decreases out@.len() - i,
    {
        let ghost before = crate::text::views(taken@);
        taken.push(chars_of(out[i].id.as_str()));
        assert(crate::text::views(taken@) =~= before.push(out@[i as int].id@));
        assert(ids.take(i + 1) =~= ids.take(i as int).push(out@[i as int].id@));
        i = i + 1;
    }
    assert(ids.take(ids.len() as int) =~= ids);
    let b = chars_of(base);
    let mut id = b.clone();
    let mut k: usize = 0;
    while contains_chars(&taken, id.as_slice())
        invariant
            crate::text::views(taken@) == ids,
            ids.len() == out@.len(),
            ids.len() < usize::MAX,
            b@ == base@,
            id@ == id_candidate(base@, k as nat),
            k <= ids.len(),
            forall|j: nat| j < k ==> ids.contains(#[trigger] id_candidate(base@, j)),
        decreases ids.len() - k,
    {
        proof {
            assert forall|j: nat| j <= k implies ids.contains(#[trigger] id_candidate(base@, j)) by {
                if j < k {
                } else {
                    assert(j == k);
                }
            }
            lemma_id_candidates_bound(base@, ids, k as nat);
        }
        k = k + 1;
        let mut next = b.clone();
        next.push('-');
        push_decimal(&mut next, (k + 1) as u64);
        proof {
            reveal_strlit("-");
            assert(next@ =~= base@ + "-"@ + decimal((k + 1) as nat));
        }
        id = next;
    }
    string_of(id.as_slice())
}

// ── adding candidates ──────────────────────────────────────────────────────

/// A directory name as a candidate name: spaces become dashes.
pub open spec fn dashed(name: Seq<char>) -> Seq<char> {
    name.map_values(|c: char| if c == ' ' {
        '-'
    } else {
        c
    })
}

fn dash_spaces(name: &str) -> (r: String)
    ensures
        r@ == dashed(name@),
{
    let c = chars_of(name);
    let mut out: Vec<char> = Vec::new();
    let mut i: usize = 0;
    while i < c.len()
        invariant
            i <= c@.len(),
            out@ == dashed(c@.take(i as int)),
        decreases c@.len() - i,
    {
        out.push(if c[i] == ' ' {
            '-'
        } else {
            c[i]
        });
        assert(dashed(c@.take(i + 1)) =~= dashed(c@.take(i as int)).push(if c@[i as int] == ' ' {
            '-'
        } else {
            c@[i as int]
        }));
        i = i + 1;
    }
    assert(c@.take(c@.len() as int) =~= c@);
    string_of(out.as_slice())
}

/// Record a project found at `path` (a directory named `name`), unless one
/// was already recorded there: its name has spaces turned into dashes, its
/// id is made unique among those recorded. Whether it was recorded is
/// returned.
pub fn add_candidate(
    out: &mut Vec<DetectCandidate>,
    name: &str,
    path: String,
    category: String,
    command: String,
) -> (added: bool)
    requires
        old(out)@.len() < usize::MAX,
    ensures
        added == !exists|i: int| 0 <= i < old(out)@.len() && (#[trigger] old(out)@[i]).path@ == path@,
        !added ==> final(out)@ == old(out)@,
        added ==> final(out)@.len() == old(out)@.len() + 1 && final(out)@.drop_last() == old(out)@
            && final(out)@.last().name@ == dashed(name@) && final(out)@.last().path@ == path@
            && final(out)@.last().category@ == category@ && final(out)@.last().command@ == command@
            && exists|k: nat|
            final(out)@.last().id@ == id_candidate(dashed(name@), k) && !old(out)@.map_values(
                |c: DetectCandidate| c.id@,
            ).contains(final(out)@.last().id@) && forall|j: nat|
                j < k ==> old(out)@.map_values(|c: DetectCandidate| c.id@).contains(
                    #[trigger] id_candidate(dashed(name@), j),
                ),
{
    let mut i: usize = 0;
    while i < out.len()
        invariant
            i <= out@.len(),
            out@ == old(out)@,
            forall|j: int| 0 <= j < i ==> (#[trigger] out@[j]).path@ != path@,
        decreases out@.len() - i,
    {
        if out[i].path == path {
            return false;
        }
        i = i + 1;
    }
    let base = dash_spaces(name);
    let id = make_id(base.as_str(), out.as_slice());
    let ghost before = out@;
    out.push(DetectCandidate { id, name: base, path, command, category });
    assert(out@.drop_last() =~= before);
    true
}

// ── listing order ──────────────────────────────────────────────────────────

/// Candidates are listed by their lowercased name.
pub open spec fn sort_key(c: CandidateView) -> Seq<char> {
    str_lower(c.name)
}

/// `key(a) <= key(b)` in string order.
pub open spec fn key_le(a: Seq<char>, b: Seq<char>) -> bool {
    !seq_less(b, a)
}

/// `idx` lists each of `0..n` exactly once.
pub open spec fn is_permutation(idx: Seq<int>, n: nat) -> bool {
    &&& idx.len() == n
    &&& forall|i: int| 0 <= i < n ==> 0 <= #[trigger] idx[i] < n
    &&& forall|i: int, j: int| 0 <= i < j < n ==> #[trigger] idx[i] != #[trigger] idx[j]
}

/// `r` is `v` sorted by lowercased name, candidates with equal keys in
/// their original order (`idx[i]` is where `r[i]` stood in `v`).
pub open spec fn sorted_by_name(v: Seq<CandidateView>, r: Seq<CandidateView>, idx: Seq<int>) -> bool {
    &&& is_permutation(idx, v.len())
    &&& r.len() == v.len()
    &&& forall|i: int| 0 <= i < r.len() ==> #[trigger] r[i] == v[idx[i]]
    &&& forall|i: int, j: int|
        0 <= i < j < r.len() ==> key_le(sort_key(#[trigger] r[i]), sort_key(#[trigger] r[j]))
    &&& forall|i: int, j: int|
        0 <= i < j < r.len() && sort_key(#[trigger] r[i]) == sort_key(#[trigger] r[j]) ==> idx[i]
            < idx[j]
}

pub open spec fn candidate_views(v: Seq<DetectCandidate>) -> Seq<CandidateView> {
    v.map_values(|c: DetectCandidate| c@)
}

/// The candidates sorted by lowercased name, stably.
pub fn sort_candidates(v: Vec<DetectCandidate>) -> (r: Vec<DetectCandidate>)
    ensures
        exists|idx: Seq<int>| sorted_by_name(candidate_views(v@), candidate_views(r@), idx),
{
    let ghost vv = candidate_views(v@);
    let mut r: Vec<DetectCandidate> = Vec::new();
    let mut keys: Vec<Vec<char>> = Vec::new();
    let ghost mut idx: Seq<int> = Seq::empty();
    let mut k: usize = 0;
    while k < v.len()
        invariant
            k <= v@.len(),
            vv == candidate_views(v@),
            r@.len() == k,
            keys@.len() == k,
            forall|i: int| 0 <= i < k ==> (#[trigger] keys@[i])@ == sort_key(r@[i]@),
            sorted_by_name(vv.take(k as int), candidate_views(r@), idx),
        decreases v@.len() - k,
    {
        let x = v[k].copy();
        let xk = chars_of(to_lowercase(x.name.as_str()).as_str());
        assert(xk@ == sort_key(x@));
        // the first position whose key is greater than x's
        let mut p: usize = 0;
        while p < r.len() && !seq_less_exec(xk.as_slice(), keys[p].as_slice())
            invariant
                p <= r@.len(),
                r@.len() == keys@.len(),
                forall|i: int| 0 <= i < r@.len() ==> (#[trigger] keys@[i])@ == sort_key(r@[i]@),
                forall|i: int| 0 <= i < p ==> !seq_less(xk@, #[trigger] sort_key(r@[i]@)),
            decreases r@.len() - p,
        {
            p = p + 1;
        }
        let ghost old_r = candidate_views(r@);
        let ghost old_keys = keys@;
        let ghost old_rr = r@;
        let ghost old_idx = idx;
        proof {
            lemma_insert_sorted(vv, k as int, old_r, old_idx, p as int);
            idx = old_idx.insert(p as int, k as int);
        }
        r.insert(p, x);
        keys.insert(p, xk);
        proof {
            assert(candidate_views(r@) =~= old_r.insert(p as int, vv[k as int]));
            assert(vv.take(k + 1) =~= vv.take(k as int).push(vv[k as int]));
            assert forall|i: int| 0 <= i < k + 1 implies (#[trigger] keys@[i])@ == sort_key(r@[i]@) by {
                if i < p {
                } else if i == p {
                } else {
                    assert(keys@[i] == old_keys[i - 1]);
                    assert(r@[i] == old_rr[i - 1]);
                }
            }
        }
        k = k + 1;
    }
    assert(vv.take(v@.len() as int) =~= vv);
    r
}

fn seq_less_exec(a: &[char], b: &[char]) -> (r: bool)
    ensures
        r == seq_less(a@, b@),
{
    crate::text::less_chars(a, b)
}

/// Inserting the next element after every element with a key not greater
/// than its own keeps the order sorted and stable.
proof fn lemma_insert_sorted(v: Seq<CandidateView>, k: int, r: Seq<CandidateView>, idx: Seq<int>, p: int)
    requires
        0 <= k < v.len(),
        sorted_by_name(v.take(k), r, idx),
        0 <= p <= r.len(),
        forall|i: int| 0 <= i < p ==> !seq_less(sort_key(v[k]), #[trigger] sort_key(r[i])),
        p < r.len() ==> seq_less(sort_key(v[k]), sort_key(r[p])),
    ensures
        sorted_by_name(v.take(k + 1), r.insert(p, v[k]), idx.insert(p, k)),
{
    let x = v[k];
    let kx = sort_key(x);
    let r2 = r.insert(p, x);
    let idx2 = idx.insert(p, k);
    let vt = v.take(k + 1);
    assert forall|i: int| 0 <= i < r2.len() implies #[trigger] r2[i] == vt[idx2[i]] by {
        if i < p {
            assert(r2[i] == r[i]);
            assert(idx2[i] == idx[i]);
        } else if i == p {
        } else {
            assert(r2[i] == r[i - 1]);
            assert(idx2[i] == idx[i - 1]);
        }
    }
    assert forall|i: int| 0 <= i < k + 1 implies 0 <= #[trigger] idx2[i] < k + 1 by {
        if i < p {
            assert(idx2[i] == idx[i]);
        } else if i > p {
            assert(idx2[i] == idx[i - 1]);
        }
    }
    assert forall|i: int, j: int| 0 <= i < j < k + 1 implies #[trigger] idx2[i] != #[trigger] idx2[j] by {
        if i != p && j != p {
            let a = if i < p { i } else { i - 1 };
            let b = if j < p { j } else { j - 1 };
            assert(idx2[i] == idx[a]);
            assert(idx2[j] == idx[b]);
        } else if i == p {
            assert(idx2[j] == idx[j - 1]);
        } else {
            assert(idx2[i] == idx[i]);
        }
    }
    assert forall|i: int, j: int| 0 <= i < j < r2.len() implies key_le(
        sort_key(#[trigger] r2[i]),
        sort_key(#[trigger] r2[j]),
    ) && (sort_key(r2[i]) == sort_key(r2[j]) ==> idx2[i] < idx2[j]) by {
        if j < p {
            assert(r2[i] == r[i] && r2[j] == r[j]);
            assert(idx2[i] == idx[i] && idx2[j] == idx[j]);
        } else if j == p {
            assert(r2[i] == r[i]);
            assert(idx2[i] == idx[i]);
            crate::text::lemma_seq_less_total(sort_key(r[i]), kx);
        } else if i > p {
            assert(r2[i] == r[i - 1] && r2[j] == r[j - 1]);
            assert(idx2[i] == idx[i - 1] && idx2[j] == idx[j - 1]);
        } else if i == p {
            // x < key(r[p]) <= key(r[j - 1])
            assert(r2[j] == r[j - 1]);
            let kp = sort_key(r[p]);
            let kj = sort_key(r[j - 1]);
            if j - 1 > p {
                assert(key_le(kp, kj));
                crate::text::lemma_seq_less_total(kp, kj);
                if kp != kj {
                    crate::text::lemma_seq_less_transitive(kx, kp, kj);
                }
            }
            crate::text::lemma_seq_less_asym(kx, kj);
            crate::text::lemma_seq_less_irreflexive(kx);
        } else {
            assert(r2[i] == r[i] && r2[j] == r[j - 1]);
            assert(idx2[i] == idx[i] && idx2[j] == idx[j - 1]);
        }
    }
}

// ── scanning ───────────────────────────────────────────────────────────────

/// What a scan does at a directory.
pub enum ScanStep {
    /// Nothing: skipped by name, or a library package.
    Skip,
    /// A workspace root: descend into these member directories (those
    /// that exist).
    Members(Vec<String>),
    /// A project, with its category and launch command.
    Found(String, String),
    /// No manifest: descend into the subdirectories.
    Descend,
}

/// What a scan does at the directory `path` named `name`, from the files
/// it has, its `package.json`, its workspace file's text, its package
/// manager and which `--prefix` candidates of its scripts are packages.
pub open spec fn scan_step_of(
    name: Seq<char>,
    path: Seq<char>,
    f: DirFiles,
    pkg: PackageInfo,
    yaml: Option<Seq<char>>,
    pm: PackageManager,
    exists: Seq<bool>,
) -> ScanStepView {
    if skipped_name(name) {
        ScanStepView::Skip
    } else if super::manifest::workspace_root(f, pkg) {
        ScanStepView::Members(member_bases(yaml))
    } else {
        match manifest_of(f, pkg, pm, exists) {
            Some((c, cmd)) => if f.package_json && library_leaf(path) {
                ScanStepView::Skip
            } else {
                ScanStepView::Found(c, cmd)
            },
            None => ScanStepView::Descend,
        }
    }
}

pub enum ScanStepView {
    Skip,
    Members(Seq<Seq<char>>),
    Found(Seq<char>, Seq<char>),
    Descend,
}

impl ScanStep {
    pub open spec fn view(&self) -> ScanStepView {
        match self {
            ScanStep::Skip => ScanStepView::Skip,
            ScanStep::Members(v) => ScanStepView::Members(v@.map_values(|s: String| s@)),
            ScanStep::Found(c, cmd) => ScanStepView::Found(c@, cmd@),
            ScanStep::Descend => ScanStepView::Descend,
        }
    }
}

pub fn scan_step(
    name: &str,
    path: &str,
    f: &DirFiles,
    pkg: &PackageInfo,
    yaml: Option<&str>,
    pm: PackageManager,
    exists: &[bool],
) -> (r: ScanStep)
    requires
        f.package_json ==> exists@.len() == prefix_candidates_in(*pkg).len(),
    ensures
        r.view() == scan_step_of(
            name@,
            path@,
            *f,
            *pkg,
            match yaml {
                Some(t) => Some(t@),
                None => None,
            },
            pm,
            exists@,
        ),
{
    if is_skipped(name) {
        return ScanStep::Skip;
    }
    if super::manifest::is_workspace_root(f, pkg) {
        return ScanStep::Members(runnable_member_bases(yaml));
    }
    match detect_manifest(f, pkg, pm, exists) {
        Some((c, cmd)) => {
            if f.package_json && is_library_leaf(path) {
                ScanStep::Skip
            } else {
                ScanStep::Found(c, cmd)
            }
        },
        None => ScanStep::Descend,
    }
}

/// How deep below a scan root the scan goes.
pub const MAX_SCAN_DEPTH: usize = 8;

/// The subdirectories a scan goes on into from a directory at `depth` (of
/// at most `max_depth`) after step `step`, given the names of its
/// subdirectories: a workspace's member bases, or, for a directory that is
/// no project, each child not skipped as noise nor an older version of a
/// sibling; nothing at the depth limit.
pub open spec fn next_dirs_of(step: ScanStepView, depth: nat, max_depth: nat, children: Seq<Seq<char>>) -> Seq<
    Seq<char>,
> {
    if depth >= max_depth {
        Seq::empty()
    } else {
        match step {
            ScanStepView::Members(bases) => bases,
            ScanStepView::Descend => children.filter(
                |c: Seq<char>| !skipped_name(c) && !old_version(c, children),
            ),
            _ => Seq::empty(),
        }
    }
}

pub fn next_dirs(step: &ScanStep, depth: usize, max_depth: usize, children: &[String]) -> (r: Vec<String>)
    ensures
        r@.map_values(|s: String| s@) == next_dirs_of(
            step.view(),
            depth as nat,
            max_depth as nat,
            children@.map_values(|s: String| s@),
        ),
{
    let ghost cv = children@.map_values(|s: String| s@);
    if depth >= max_depth {
        let r: Vec<String> = Vec::new();
        assert(r@.map_values(|s: String| s@) =~= Seq::<Seq<char>>::empty());
        return r;
    }
    match step {
        ScanStep::Members(bases) => {
            let mut r: Vec<String> = Vec::new();
            let mut i: usize = 0;
            while i < bases.len()
                invariant
                    i <= bases@.len(),
                    r@.map_values(|s: String| s@) == bases@.map_values(|s: String| s@).take(i as int),
                decreases bases@.len() - i,
            {
                let ghost before = r@;
                r.push(crate::text::copy_str(bases[i].as_str()));
                assert(r@.map_values(|s: String| s@) =~= before.map_values(|s: String| s@).push(bases@[i as int]@));
                assert(bases@.map_values(|s: String| s@).take(i + 1) =~= bases@.map_values(|s: String| s@).take(
                    i as int,
                ).push(bases@[i as int]@));
                i = i + 1;
            }
            assert(bases@.map_values(|s: String| s@).take(bases@.len() as int) =~= bases@.map_values(
                |s: String| s@,
            ));
            r
        },
        ScanStep::Descend => {
            let ghost keep = |c: Seq<char>| !skipped_name(c) && !old_version(c, cv);
            let mut r: Vec<String> = Vec::new();
            let mut i: usize = 0;
            while i < children.len()
                invariant
                    i <= children@.len(),
                    cv == children@.map_values(|s: String| s@),
                    keep == (|c: Seq<char>| !skipped_name(c) && !old_version(c, cv)),
                    r@.map_values(|s: String| s@) == cv.take(i as int).filter(keep),
                decreases children@.len() - i,
            {
                let c = children[i].as_str();
                let ok = !is_skipped(c) && !is_old_version(c, children);
                let ghost before = r@;
                proof {
                    assert(cv.take(i + 1).drop_last() =~= cv.take(i as int));
                    assert(cv.take(i + 1).last() == children@[i as int]@);
                    reveal_with_fuel(Seq::filter, 1);
                }
                if ok {
                    r.push(crate::text::copy_str(c));
                    assert(r@.map_values(|s: String| s@) =~= before.map_values(|s: String| s@).push(c@));
                }
                i = i + 1;
            }
            assert(cv.take(cv.len() as int) =~= cv);
            r
        },
        _ => {
            let r: Vec<String> = Vec::new();
            assert(r@.map_values(|s: String| s@) =~= Seq::<Seq<char>>::empty());
            r
        },
    }
}

// ── the picker ─────────────────────────────────────────────────────────────

pub struct DetectController;

impl DetectController {
    /// Move through the found projects (wrapping around), add the selected
    /// one, or close; with nothing found any key closes.
    pub fn handle_key(key: KeyCode, selected: &mut usize, candidates: &[DetectCandidate]) -> (r:
        DetectAction)
        ensures
            candidates@.len() == 0 ==> r is Close && *final(selected) == *old(selected),
            candidates@.len() > 0 ==> match key {
                KeyCode::Esc => r is Close && *final(selected) == *old(selected),
                KeyCode::Up | KeyCode::Char('k') => r is NoAction && *final(selected) == if *old(
                    selected,
                ) > 0 {
                    (*old(selected) - 1) as usize
                } else {
                    (candidates@.len() - 1) as usize
                },
                KeyCode::Down | KeyCode::Char('j') => r is NoAction && *final(selected) == if *old(
                    selected,
                ) + 1 < candidates@.len() {
                    (*old(selected) + 1) as usize
                } else {
                    0
                },
                KeyCode::Enter => *final(selected) == *old(selected) && if *old(selected)
                    < candidates@.len() {
                    r matches DetectAction::Add(c) && c@ == candidates@[*old(selected) as int]@
                } else {
                    r is NoAction
                },
                _ => r is NoAction && *final(selected) == *old(selected),
            },
    {
        let n = candidates.len();
        if n == 0 {
            return DetectAction::Close;
        }
        match key {
            KeyCode::Esc => DetectAction::Close,
            KeyCode::Up | KeyCode::Char('k') => {
                if *selected > 0 {
                    *selected = *selected - 1;
                } else {
                    *selected = n - 1;
                }
                DetectAction::NoAction
            },
            KeyCode::Down | KeyCode::Char('j') => {
                if *selected < n - 1 {
                    *selected = *selected + 1;
                } else {
                    *selected = 0;
                }
                DetectAction::NoAction
            },
            KeyCode::Enter => {
                if *selected < n {
                    DetectAction::Add(candidates[*selected].copy())
                } else {
                    DetectAction::NoAction
                }
            },
            _ => DetectAction::NoAction,
        }
    }
}

} // verus!
