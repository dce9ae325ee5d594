//! Which directories a scan for projects skips or descends into, judged by
//! their names.
use crate::config::{file_name, named_parts};
use crate::num::{all_digits, is_digit, parse_unsigned, parse_unsigned_chars};
use crate::text::{
    chars_of, ends_with, ends_with_str, eq_str, lines_chars, lines_of, slice_vec, split_chars,
    split_on, starts_with, starts_with_str, string_of, trim, trim_chars, views,
};
use crate::unicode::{str_lower, to_lowercase};
use vstd::prelude::*;

verus! {

/// Version, snapshot and archive folder names: historical copies, not live
/// projects.
pub open spec fn snapshot_name(name: Seq<char>) -> bool {
    ||| ends_with(name, "_backup"@)
    ||| ends_with(name, "-backup"@)
    ||| ends_with(name, ".bak"@)
    ||| ends_with(name, "_old"@)
    ||| ends_with(name, "_archived"@)
    ||| ends_with(name, "_archive"@)
    ||| name == "backup"@
    ||| name == "old"@
    ||| name == "archive"@
    ||| name == "archived"@
    ||| name == "snapshot"@
    ||| name == "tmp"@
    ||| name == "temp"@
}

pub fn is_snapshot(name: &str) -> (r: bool)
    ensures
        r == snapshot_name(name@),
{
    let c = chars_of(name);
    let s = c.as_slice();
    ends_with_str(s, "_backup") || ends_with_str(s, "-backup") || ends_with_str(s, ".bak")
        || ends_with_str(s, "_old") || ends_with_str(s, "_archived") || ends_with_str(s, "_archive")
        || eq_str(s, "backup") || eq_str(s, "old") || eq_str(s, "archive") || eq_str(s, "archived")
        || eq_str(s, "snapshot") || eq_str(s, "tmp") || eq_str(s, "temp")
}

/// The index of the last `c` in `s`.
pub open spec fn last_index(s: Seq<char>, c: char) -> Option<int>
    decreases s.len(),
{
    if s.len() == 0 {
        None
    } else if s.last() == c {
        Some(s.len() - 1)
    } else {
        last_index(s.drop_last(), c)
    }
}

/// A name like `foo-2.1.0`: after its last `-`, two or three `.`-separated
/// runs of ASCII digits (a versioned source snapshot).
pub open spec fn versioned_name(name: Seq<char>) -> bool {
    match last_index(name, '-') {
        None => false,
        Some(i) => {
            let parts = split_on(name.skip(i + 1), '.');
            2 <= parts.len() <= 3 && forall|j: int|
                0 <= j < parts.len() ==> (#[trigger] parts[j]).len() > 0 && all_digits(parts[j])
        },
    }
}

fn last_index_of(s: &[char], c: char) -> (r: Option<usize>)
    ensures
        match r {
            Some(i) => last_index(s@, c) == Some(i as int) && i < s@.len(),
            None => last_index(s@, c).is_none(),
        },
{
    let mut n = s.len();
    assert(s@.take(n as int) =~= s@);
    while n > 0
        invariant
            n <= s@.len(),
            last_index(s@, c) == last_index(s@.take(n as int), c),
        decreases n,
    {
        assert(s@.take(n as int).last() == s@[n - 1]);
        if s[n - 1] == c {
            return Some(n - 1);
        }
        assert(s@.take(n as int).drop_last() =~= s@.take(n - 1));
        n = n - 1;
    }
    None
}

fn all_digit_chars(s: &[char]) -> (r: bool)
    ensures
        r == all_digits(s@),
{
    let mut i: usize = 0;
    while i < s.len()
        invariant
            i <= s@.len(),
            forall|k: int| 0 <= k < i ==> is_digit(#[trigger] s@[k]),
        decreases s@.len() - i,
    {
        if !('0' <= s[i] && s[i] <= '9') {
            return false;
        }
        i = i + 1;
    }
    true
}

pub fn is_versioned_dir(name: &str) -> (r: bool)
    ensures
        r == versioned_name(name@),
{
    let c = chars_of(name);
    match last_index_of(c.as_slice(), '-') {
        None => false,
        Some(i) => {
            let ver = slice_vec(c.as_slice(), i + 1, c.len());
            assert(ver@ =~= name@.skip(i + 1));
            let parts = split_chars(ver.as_slice(), '.');
            let ghost pv = views(parts@);
            assert(pv == split_on(name@.skip(i + 1), '.'));
            if parts.len() < 2 || parts.len() > 3 {
                return false;
            }
            let mut j: usize = 0;
            while j < parts.len()
                invariant
                    j <= parts@.len(),
                    pv == views(parts@),
                    last_index(name@, '-') == Some(i as int),
                    pv == split_on(name@.skip(i + 1), '.'),
                    forall|k: int| 0 <= k < j ==> (#[trigger] pv[k]).len() > 0 && all_digits(pv[k]),
                decreases parts@.len() - j,
            {
                assert(pv[j as int] == parts@[j as int]@);
                if parts[j].len() == 0 || !all_digit_chars(parts[j].as_slice()) {
                    assert(!versioned_name(name@)) by {
                        assert(last_index(name@, '-') == Some(i as int));
                        let ps = split_on(name@.skip(i + 1), '.');
                        assert(ps[j as int] == pv[j as int]);
                        assert(!(ps[j as int].len() > 0 && all_digits(ps[j as int])));
                    }
                    return false;
                }
                j = j + 1;
            }
            true
        },
    }
}

/// Names a scan never descends into: hidden and underscore-prefixed
/// directories, snapshots, versioned copies, build outputs, dependency
/// caches, media folders and toolchain trees.
pub open spec fn skipped_name(name: Seq<char>) -> bool {
    ||| starts_with(name, "."@)
    ||| starts_with(name, "_"@)
    ||| snapshot_name(name)
    ||| versioned_name(name)
    ||| ends_with(name, "-build"@)
    ||| ends_with(name, "_build"@)
    ||| cache_name(name)
}

/// The dependency, build, media and toolchain folder names.
pub open spec fn cache_name(name: Seq<char>) -> bool {
    ||| name == "node_modules"@
    ||| name == "target"@
    ||| name == "dist"@
    ||| name == "build"@
    ||| name == "out"@
    ||| name == "venv"@
    ||| name == ".venv"@
    ||| name == "coverage"@
    ||| name == "__pycache__"@
    ||| name == ".idea"@
    ||| name == ".vscode"@
    ||| name == ".cache"@
    ||| name == ".cargo"@
    ||| name == ".rustup"@
    ||| name == "Library"@
    ||| name == "Downloads"@
    ||| name == "Pictures"@
    ||| name == "Music"@
    ||| name == "Videos"@
    ||| name == "Movies"@
    ||| name == ".npm"@
    ||| name == ".pnpm-store"@
    ||| name == "packages_old"@
    ||| name == "go"@
    ||| name == "gopath"@
    ||| name == "android-sdk"@
    ||| name == "Android"@
    ||| name == "Applications"@
    ||| name == "AppData"@
    ||| name == "snap"@
    ||| name == "flatpak"@
    ||| name == "Sdk"@
    ||| name == "sdk"@
    ||| name == "rustup"@
    ||| name == "cargo"@
}

fn is_cache_name(s: &[char]) -> (r: bool)
    ensures
        r == cache_name(s@),
{
    eq_str(s, "node_modules") || eq_str(s, "target") || eq_str(s, "dist") || eq_str(s, "build")
        || eq_str(s, "out") || eq_str(s, "venv") || eq_str(s, ".venv") || eq_str(s, "coverage")
        || eq_str(s, "__pycache__") || eq_str(s, ".idea") || eq_str(s, ".vscode") || eq_str(
        s,
        ".cache",
    ) || eq_str(s, ".cargo") || eq_str(s, ".rustup") || eq_str(s, "Library") || eq_str(
        s,
        "Downloads",
    ) || eq_str(s, "Pictures") || eq_str(s, "Music") || eq_str(s, "Videos") || eq_str(s, "Movies")
        || eq_str(s, ".npm") || eq_str(s, ".pnpm-store") || eq_str(s, "packages_old") || eq_str(
        s,
        "go",
    ) || eq_str(s, "gopath") || eq_str(s, "android-sdk") || eq_str(s, "Android") || eq_str(
        s,
        "Applications",
    ) || eq_str(s, "AppData") || eq_str(s, "snap") || eq_str(s, "flatpak") || eq_str(s, "Sdk")
        || eq_str(s, "sdk") || eq_str(s, "rustup") || eq_str(s, "cargo")
}

pub fn is_skipped(name: &str) -> (r: bool)
    ensures
        r == skipped_name(name@),
{
    let c = chars_of(name);
    let s = c.as_slice();
    starts_with_str(s, ".") || starts_with_str(s, "_") || is_snapshot(name) || is_versioned_dir(name)
        || ends_with_str(s, "-build") || ends_with_str(s, "_build") || is_cache_name(s)
}

// ── vN folders ─────────────────────────────────────────────────────────────

/// The digits of a `vN` name (already lowercased): `v` followed by one or
/// more ASCII digits and nothing else.
pub open spec fn v_digits(lower: Seq<char>) -> Option<Seq<char>> {
    if lower.len() > 1 && lower[0] == 'v' && all_digits(lower.drop_first()) {
        Some(lower.drop_first())
    } else {
        None
    }
}

/// A `vN` folder is an old version when one of its sibling folders is a
/// `vM` with a larger M; the number of a `vN` whose digits overflow counts
/// as 0 (and such a sibling counts as no version).
pub open spec fn old_version(name: Seq<char>, siblings: Seq<Seq<char>>) -> bool {
    match v_digits(str_lower(name)) {
        None => false,
        Some(d) => exists|j: int|
            0 <= j < siblings.len() && #[trigger] newer_version(siblings[j], v_value(d)),
    }
}

/// The number of a `vN` folder's digits; 0 when it overflows 32 bits.
pub open spec fn v_value(d: Seq<char>) -> nat {
    match parse_unsigned(d, u32::MAX as nat) {
        Some(x) => x,
        None => 0,
    }
}

/// `s` names a `vM` folder with M (fitting in 32 bits) larger than `n`.
pub open spec fn newer_version(s: Seq<char>, n: nat) -> bool {
    match v_digits(str_lower(s)) {
        Some(e) => match parse_unsigned(e, u32::MAX as nat) {
            Some(m) => m > n,
            None => false,
        },
        None => false,
    }
}

fn v_number(name: &str) -> (r: Option<Option<u32>>)
    ensures
        match r {
            None => v_digits(str_lower(name@)).is_none(),
            Some(v) => v_digits(str_lower(name@)) matches Some(d) && match v {
                Some(n) => parse_unsigned(d, u32::MAX as nat) == Some(n as nat),
                None => parse_unsigned(d, u32::MAX as nat).is_none(),
            },
        },
{
    let lower = to_lowercase(name);
    let c = chars_of(lower.as_str());
    if c.len() > 1 && c[0] == 'v' {
        let rest = slice_vec(c.as_slice(), 1, c.len());
        assert(rest@ =~= c@.drop_first());
        if all_digit_chars(rest.as_slice()) {
            return Some(parse_unsigned_chars(rest.as_slice(), u32::MAX));
        }
    }
    None
}

/// Whether `name` is a `vN` folder with a newer `vM` among the names of its
/// sibling folders.
pub fn is_old_version(name: &str, siblings: &[String]) -> (r: bool)
    ensures
        r == old_version(name@, siblings@.map_values(|s: String| s@)),
{
    let ghost sv = siblings@.map_values(|s: String| s@);
    let n: u32 = match v_number(name) {
        None => {
            return false;
        },
        Some(v) => match v {
            Some(x) => x,
            None => 0,
        },
    };
    let mut j: usize = 0;
    while j < siblings.len()
        invariant
            j <= siblings@.len(),
            sv == siblings@.map_values(|s: String| s@),
            v_digits(str_lower(name@)) matches Some(d) && n == v_value(d),
            forall|k: int| 0 <= k < j ==> !#[trigger] newer_version(sv[k], n as nat),
        decreases siblings@.len() - j,
    {
        assert(sv[j as int] == siblings@[j as int]@);
        match v_number(siblings[j].as_str()) {
            Some(Some(m)) => {
                if m > n {
                    proof {
                        assert(newer_version(sv[j as int], n as nat));
                        let d = v_digits(str_lower(name@))->0;
                        assert(v_digits(str_lower(name@)) == Some(d));
                        let nn: nat = v_value(d);
                        assert(nn == n);
                        assert(newer_version(sv[j as int], nn));
                        assert(exists|q: int| 0 <= q < sv.len() && #[trigger] newer_version(sv[q], nn));
                        assert(old_version(name@, sv));
                    }
                    return true;
                }
            },
            _ => {},
        }
        j = j + 1;
    }
    false
}

// ── workspaces ─────────────────────────────────────────────────────────────

/// Directory names that hold libraries, never runnable apps.
pub open spec fn library_base(s: Seq<char>) -> bool {
    ||| s == "packages"@
    ||| s == "libs"@
    ||| s == "lib"@
    ||| s == "node_modules"@
    ||| s == "shared"@
    ||| s == "common"@
    ||| s == "src"@
    ||| s == "internal"@
}

fn is_library_base(s: &[char]) -> (r: bool)
    ensures
        r == library_base(s@),
{
    eq_str(s, "packages") || eq_str(s, "libs") || eq_str(s, "lib") || eq_str(s, "node_modules")
        || eq_str(s, "shared") || eq_str(s, "common") || eq_str(s, "src") || eq_str(s, "internal")
}

/// Directory names that gather libraries, so that nothing under them is a
/// runnable app. Generic source roots (`src`, `internal`) are not among
/// them: a project under `~/src` is found like any other.
pub open spec fn library_container(s: Seq<char>) -> bool {
    ||| s == "packages"@
    ||| s == "libs"@
    ||| s == "lib"@
    ||| s == "node_modules"@
    ||| s == "shared"@
    ||| s == "common"@
}

fn is_library_container(s: &[char]) -> (r: bool)
    ensures
        r == library_container(s@),
{
    eq_str(s, "packages") || eq_str(s, "libs") || eq_str(s, "lib") || eq_str(s, "node_modules")
        || eq_str(s, "shared") || eq_str(s, "common")
}

/// The characters a workspace glob line is trimmed of.
pub open spec fn glob_trim_char(c: char) -> bool {
    c == '\'' || c == '"' || c == '-' || c == ' '
}

/// `s` with the leading and trailing quote, dash and space characters removed.
pub open spec fn glob_trimmed(s: Seq<char>) -> Seq<char>
    decreases s.len(),
{
    if s.len() > 0 && glob_trim_char(s[0]) {
        glob_trimmed(s.drop_first())
    } else if s.len() > 0 && glob_trim_char(s.last()) {
        glob_trimmed(s.drop_last())
    } else {
        s
    }
}

/// The base directories named by the glob lines (those with a `*`) of a
/// `pnpm-workspace.yaml`: the part of each trimmed line before its first `/`.
pub open spec fn yaml_bases(lines: Seq<Seq<char>>) -> Seq<Seq<char>>
    decreases lines.len(),
{
    if lines.len() == 0 {
        Seq::empty()
    } else {
        let r = yaml_bases(lines.drop_last());
        let t = trim(lines.last());
        if t.contains('*') {
            let base = split_on(glob_trimmed(t), '/')[0];
            if base.len() > 0 {
                r.push(base)
            } else {
                r
            }
        } else {
            r
        }
    }
}

/// The conventional directories of runnable apps in a workspace.
pub open spec fn conventional_bases() -> Seq<Seq<char>> {
    seq![
        "apps"@,
        "services"@,
        "platform"@,
        "web"@,
        "frontend"@,
        "backend"@,
        "mobile"@,
        "tools"@,
        "sites"@,
    ]
}

/// `bases` extended by each of `extra` not already in it, in order.
pub open spec fn with_missing(bases: Seq<Seq<char>>, extra: Seq<Seq<char>>) -> Seq<Seq<char>>
    decreases extra.len(),
{
    if extra.len() == 0 {
        bases
    } else {
        let b = with_missing(bases, extra.drop_last());
        if b.contains(extra.last()) {
            b
        } else {
            b.push(extra.last())
        }
    }
}

/// The workspace member directories a scan descends into: the bases of the
/// workspace file's globs, then the conventional ones not listed, without
/// the library containers.
pub open spec fn member_bases(yaml: Option<Seq<char>>) -> Seq<Seq<char>> {
    let listed = match yaml {
        Some(t) => yaml_bases(lines_of(t)),
        None => Seq::empty(),
    };
    with_missing(listed, conventional_bases()).filter(|b: Seq<char>| !library_base(b))
}

fn glob_trim(s: &[char]) -> (r: Vec<char>)
    ensures
        r@ == glob_trimmed(s@),
{
    let mut a: usize = 0;
    let mut b: usize = s.len();
    assert(s@.subrange(0, s@.len() as int) =~= s@);
    while a < b && (s[a] == '\'' || s[a] == '"' || s[a] == '-' || s[a] == ' ')
        invariant
            a <= b <= s@.len(),
            b == s@.len(),
            glob_trimmed(s@) == glob_trimmed(s@.subrange(a as int, b as int)),
        decreases b - a,
    {
        assert(s@.subrange(a as int, b as int).drop_first() =~= s@.subrange(a + 1, b as int));
        a = a + 1;
    }
    while a < b && (s[b - 1] == '\'' || s[b - 1] == '"' || s[b - 1] == '-' || s[b - 1] == ' ')
        invariant
            a <= b <= s@.len(),
            a < b ==> !glob_trim_char(s@[a as int]),
            glob_trimmed(s@) == glob_trimmed(s@.subrange(a as int, b as int)),
        decreases b - a,
    {
        let ghost t = s@.subrange(a as int, b as int);
        assert(t[0] == s@[a as int]);
        assert(t.last() == s@[b - 1]);
        assert(t.drop_last() =~= s@.subrange(a as int, b - 1));
        b = b - 1;
    }
    proof {
        let t = s@.subrange(a as int, b as int);
        if a < b {
            assert(t[0] == s@[a as int]);
            assert(t.last() == s@[b - 1]);
        }
    }
    slice_vec(s, a, b)
}

fn push_missing(bases: &mut Vec<Vec<char>>, name: &str)
    ensures
        views(final(bases)@) == if views(old(bases)@).contains(name@) {
            views(old(bases)@)
        } else {
            views(old(bases)@).push(name@)
        },
{
    let c = chars_of(name);
    let mut i: usize = 0;
    while i < bases.len()
        invariant
            i <= bases@.len(),
            c@ == name@,
            forall|k: int| 0 <= k < i ==> (#[trigger] views(bases@)[k]) != name@,
        decreases bases@.len() - i,
    {
        if crate::text::seq_eq(bases[i].as_slice(), c.as_slice()) {
            assert(views(bases@)[i as int] == name@);
            return;
        }
        i = i + 1;
    }
    let ghost before = views(bases@);
    bases.push(c);
    assert(views(bases@) =~= before.push(name@));
}

fn yaml_globs(t: &str) -> (bases: Vec<Vec<char>>)
    ensures
        views(bases@) == yaml_bases(lines_of(t@)),
{
    let mut bases: Vec<Vec<char>> = Vec::new();
    let ls = lines_chars(chars_of(t).as_slice());
    let ghost lv = views(ls@);
    let mut i: usize = 0;
    assert(lv.take(0) =~= Seq::<Seq<char>>::empty());
    while i < ls.len()
        invariant
            i <= ls@.len(),
            lv == views(ls@),
            views(bases@) == yaml_bases(lv.take(i as int)),
        decreases ls@.len() - i,
    {
        proof {
            assert(lv.take(i + 1).drop_last() =~= lv.take(i as int));
            assert(lv.take(i + 1).last() == ls@[i as int]@);
        }
        let line = trim_chars(ls[i].as_slice());
        let mut star = false;
        let mut k: usize = 0;
        while k < line.len()
            invariant
                k <= line@.len(),
                star == exists|q: int| 0 <= q < k && line@[q] == '*',
            decreases line@.len() - k,
        {
            if line[k] == '*' {
                star = true;
            }
            k = k + 1;
        }
        assert(star == line@.contains('*'));
        if star {
            let g = glob_trim(line.as_slice());
            let pieces = split_chars(g.as_slice(), '/');
            proof {
                crate::text::lemma_split_on_nonempty(g@, '/');
            }
            let base = pieces[0].clone();
            assert(base@ == views(pieces@)[0]);
            if base.len() > 0 {
                let ghost before = views(bases@);
                bases.push(base);
                assert(views(bases@) =~= before.push(views(pieces@)[0]));
            }
        }
        i = i + 1;
    }
    assert(lv.take(lv.len() as int) =~= lv);
    bases
}

fn add_conventional(bases: &mut Vec<Vec<char>>)
    ensures
        views(final(bases)@) == with_missing(views(old(bases)@), conventional_bases()),
{
    let ghost listed = views(bases@);
    push_missing(bases, "apps");
    push_missing(bases, "services");
    push_missing(bases, "platform");
    push_missing(bases, "web");
    push_missing(bases, "frontend");
    push_missing(bases, "backend");
    push_missing(bases, "mobile");
    push_missing(bases, "tools");
    push_missing(bases, "sites");
    proof {
        let cb = conventional_bases();
        reveal_with_fuel(with_missing, 10);
        assert(cb.drop_last() =~= seq!["apps"@, "services"@, "platform"@, "web"@, "frontend"@, "backend"@, "mobile"@, "tools"@]);
        assert(cb.drop_last().drop_last() =~= seq!["apps"@, "services"@, "platform"@, "web"@, "frontend"@, "backend"@, "mobile"@]);
        assert(cb.drop_last().drop_last().drop_last() =~= seq!["apps"@, "services"@, "platform"@, "web"@, "frontend"@, "backend"@]);
        assert(cb.drop_last().drop_last().drop_last().drop_last() =~= seq!["apps"@, "services"@, "platform"@, "web"@, "frontend"@]);
        assert(cb.drop_last().drop_last().drop_last().drop_last().drop_last() =~= seq!["apps"@, "services"@, "platform"@, "web"@]);
        assert(cb.drop_last().drop_last().drop_last().drop_last().drop_last().drop_last() =~= seq!["apps"@, "services"@, "platform"@]);
        assert(cb.drop_last().drop_last().drop_last().drop_last().drop_last().drop_last().drop_last() =~= seq!["apps"@, "services"@]);
        assert(cb.drop_last().drop_last().drop_last().drop_last().drop_last().drop_last().drop_last().drop_last() =~= seq!["apps"@]);
        assert(cb.drop_last().drop_last().drop_last().drop_last().drop_last().drop_last().drop_last().drop_last().drop_last() =~= Seq::<Seq<char>>::empty());
    }
}

/// The member directory names a scan of a workspace root descends into,
/// from the text of its `pnpm-workspace.yaml` when that could be read.
pub fn runnable_member_bases(yaml: Option<&str>) -> (r: Vec<String>)
    ensures
        r@.map_values(|s: String| s@) == member_bases(
            match yaml {
                Some(t) => Some(t@),
                None => None,
            },
        ),
{
    let mut bases: Vec<Vec<char>> = match yaml {
        Some(t) => yaml_globs(t),
        None => {
            let v: Vec<Vec<char>> = Vec::new();
            assert(views(v@) =~= Seq::<Seq<char>>::empty());
            v
        },
    };
    add_conventional(&mut bases);
    let ghost all = views(bases@);
    let ghost keep = |b: Seq<char>| !library_base(b);
    let mut out: Vec<String> = Vec::new();
    let mut i: usize = 0;
    while i < bases.len()
        invariant
            i <= bases@.len(),
            all == views(bases@),
            keep == (|b: Seq<char>| !library_base(b)),
            out@.map_values(|s: String| s@) == all.take(i as int).filter(keep),
        decreases bases@.len() - i,
    {
        proof {
            assert(all.take(i + 1).drop_last() =~= all.take(i as int));
            assert(all.take(i + 1).last() == bases@[i as int]@);
            reveal_with_fuel(Seq::filter, 1);
        }
        if !is_library_base(bases[i].as_slice()) {
            let ghost before = out@.map_values(|s: String| s@);
            out.push(string_of(bases[i].as_slice()));
            assert(out@.map_values(|s: String| s@) =~= before.push(bases@[i as int]@));
        }
        i = i + 1;
    }
    assert(all.take(all.len() as int) =~= all);
    out
}

/// A directory holding a library rather than a runnable app: its name
/// starts like a plugin, a scope, a library or shared code, or one of its
/// path components is a library container (`packages`, `libs`, ...).
pub open spec fn library_leaf(path: Seq<char>) -> bool {
    let name = match file_name(path) {
        Some(n) => n,
        None => Seq::empty(),
    };
    ||| starts_with(name, "plugin-"@)
    ||| starts_with(name, "@"@)
    ||| starts_with(name, "lib"@)
    ||| starts_with(name, "ui"@)
    ||| starts_with(name, "shared"@)
    ||| starts_with(name, "common"@)
    ||| starts_with(name, "core"@)
    ||| exists|i: int| 0 <= i < named_parts(path).len() && library_container(#[trigger] named_parts(path)[i])
}

pub fn is_library_leaf(path: &str) -> (r: bool)
    ensures
        r == library_leaf(path@),
{
    let name: Vec<char> = match crate::config::path_file_name(path) {
        Some(n) => n,
        None => Vec::new(),
    };
    let s = name.as_slice();
    if starts_with_str(s, "plugin-") || starts_with_str(s, "@") || starts_with_str(s, "lib")
        || starts_with_str(s, "ui") || starts_with_str(s, "shared") || starts_with_str(s, "common")
        || starts_with_str(s, "core") {
        return true;
    }
    let pieces = split_chars(chars_of(path).as_slice(), '/');
    let ghost all = views(pieces@);
    let ghost keep = |c: Seq<char>| c.len() > 0 && c != seq!['.'];
    let mut i: usize = 0;
    while i < pieces.len()
        invariant
            i <= pieces@.len(),
            all == views(pieces@),
            all == split_on(path@, '/'),
            keep == (|c: Seq<char>| c.len() > 0 && c != seq!['.']),
            forall|k: int| 0 <= k < all.take(i as int).filter(keep).len() ==> !library_container(#[trigger] all.take(i as int).filter(keep)[k]),
        decreases pieces@.len() - i,
    {
        proof {
            assert(all.take(i + 1).drop_last() =~= all.take(i as int));
            assert(all.take(i + 1).last() == pieces@[i as int]@);
            reveal_with_fuel(Seq::filter, 1);
        }
        if is_library_container(pieces[i].as_slice()) {
            proof {
                assert(library_container(pieces@[i as int]@));
                assert(pieces@[i as int]@.len() > 0 && pieces@[i as int]@ != seq!['.']) by {
                    reveal_strlit("packages");
                    reveal_strlit("libs");
                    reveal_strlit("lib");
                    reveal_strlit("node_modules");
                    reveal_strlit("shared");
                    reveal_strlit("common");
                }
                all.lemma_filter_contains(keep, i as int);
                assert(all.filter(keep) == named_parts(path@));
                let k = choose|k: int| 0 <= k < all.filter(keep).len() && all.filter(keep)[k] == all[i as int];
                assert(library_container(named_parts(path@)[k]));
            }
            return true;
        }
        proof {
            let x = pieces@[i as int]@;
            let t = all.take(i + 1);
            assert(t.drop_last() =~= all.take(i as int));
            assert(t.last() == x);
            if keep(x) {
                assert(t.filter(keep) == all.take(i as int).filter(keep).push(x));
            } else {
                assert(t.filter(keep) == all.take(i as int).filter(keep));
            }
        }
        i = i + 1;
    }
    assert(all.take(all.len() as int) =~= all);
    false
}

} // verus!
