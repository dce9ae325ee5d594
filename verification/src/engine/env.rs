//! Environment resolution for projects.
//!
//! Declarative [`EnvSpec`]s (from config) are turned into concrete
//! `(key, value)` pairs, with `{{placeholder}}` templating in values and
//! defaults. File fallbacks read `.env`-style text. For a virtual backend
//! project the context is the PARENT project: `{{id}}`, `{{path}}` and
//! `{{parent_port}}` refer to the parent, while `{{port}}` is always the port
//! of the project receiving the env.
use super::{find_available_port, port_search_result};
use crate::config::{env_views, EnvSpec, EnvSpecView};
use crate::num::{decimal, parse_unsigned, parse_unsigned_chars, push_decimal};
use crate::text::{
    append_chars, chars_between, chars_between_exec,
    byte_len, chars_of, eq_str, lines_chars, lines_of, slice_vec, starts_with, str_byte_len,
    string_of, trim, trim_chars, utf8_width, views, is_ws, split_on,
};
use crate::unicode::{
    char_to_uppercase, char_upper, is_alphanumeric, str_lower, str_upper, to_lowercase,
    to_uppercase, unicode_alphanumeric,
};
use vstd::prelude::*;

verus! {

// ── key/value lists ─────────────────────────────────────────────────────────

/// Environment variables: a list of assignments in which a later assignment
/// of a key overrides an earlier one.
#[derive(Debug, Clone)]
pub struct EnvVars {
    pub entries: Vec<(String, String)>,
}

pub open spec fn pair_views(v: Seq<(String, String)>) -> Seq<(Seq<char>, Seq<char>)> {
    v.map_values(|p: (String, String)| (p.0@, p.1@))
}

/// The value of `key`: its latest assignment.
pub open spec fn lookup(e: Seq<(Seq<char>, Seq<char>)>, key: Seq<char>) -> Option<Seq<char>>
    decreases e.len(),
{
    if e.len() == 0 {
        None
    } else if e.last().0 == key {
        Some(e.last().1)
    } else {
        lookup(e.drop_last(), key)
    }
}

impl EnvVars {
    pub open spec fn pairs(&self) -> Seq<(Seq<char>, Seq<char>)> {
        pair_views(self.entries@)
    }

    pub fn new() -> (r: Self)
        ensures
            r.pairs().len() == 0,
    {
        EnvVars { entries: Vec::new() }
    }

    /// Assign `key` (overriding any earlier value).
    pub fn insert(&mut self, key: String, value: String)
        ensures
            final(self).pairs() == old(self).pairs().push((key@, value@)),
    {
        let ghost before = self.pairs();
        let ghost kv = (key@, value@);
        self.entries.push((key, value));
        assert(self.pairs() =~= before.push(kv));
    }

    /// The current value of `key`.
    pub fn get(&self, key: &str) -> (r: Option<&String>)
        ensures
            match r {
                Some(v) => lookup(self.pairs(), key@) == Some(v@),
                None => lookup(self.pairs(), key@).is_none(),
            },
    {
        let k = chars_of(key);
        let mut i = self.entries.len();
        proof {
            assert(self.pairs().take(i as int) =~= self.pairs());
        }
        while i > 0
            invariant
                i <= self.entries@.len(),
                k@ == key@,
                lookup(self.pairs(), key@) == lookup(self.pairs().take(i as int), key@),
            decreases i,
        {
            let e = &self.entries[i - 1];
            let ghost t = self.pairs().take(i as int);
            assert(t.last() == (e.0@, e.1@));
            assert(t.drop_last() =~= self.pairs().take(i - 1));
            if crate::text::seq_eq(chars_of(e.0.as_str()).as_slice(), k.as_slice()) {
                return Some(&e.1);
            }
            i = i - 1;
        }
        None
    }
}

/// Context available to placeholder resolution.
#[derive(Debug, Clone)]
pub struct EnvCtx {
    /// Project id (parent id for backend envs).
    pub id: String,
    /// Absolute project path (parent path for backend envs).
    pub path: String,
    /// Resolved port of the project receiving the env (backend's own port).
    pub port: Option<u16>,
    /// Parent project's resolved port (None for non-backend projects).
    pub parent_port: Option<u16>,
    /// Backend project's resolved port (for parent envs).
    pub backend_port: Option<u16>,
    /// Ports already claimed by other projects (for `{{port+N}}`).
    pub used_ports: Vec<u16>,
    /// Env vars resolved earlier in the same list (`{{env:KEY}}`).
    pub resolved: EnvVars,
}

/// The parts of a context that placeholders read.
pub struct CtxView {
    pub id: Seq<char>,
    pub path: Seq<char>,
    pub port: Option<u16>,
    pub parent_port: Option<u16>,
    pub backend_port: Option<u16>,
    pub used_ports: Seq<u16>,
}

impl EnvCtx {
    pub open spec fn view(&self) -> CtxView {
        CtxView {
            id: self.id@,
            path: self.path@,
            port: self.port,
            parent_port: self.parent_port,
            backend_port: self.backend_port,
            used_ports: self.used_ports@,
        }
    }
}

// ── database names ─────────────────────────────────────────────────────────

/// Scan state for the maximal runs of alphanumeric characters: the finished
/// runs and the run being read.
pub open spec fn runs_state(s: Seq<char>) -> (Seq<Seq<char>>, Seq<char>)
    decreases s.len(),
{
    if s.len() == 0 {
        (Seq::<Seq<char>>::empty(), Seq::<char>::empty())
    } else {
        let (d, c) = runs_state(s.drop_last());
        if !unicode_alphanumeric(s.last()) {
            if c.len() > 0 {
                (d.push(c), Seq::<char>::empty())
            } else {
                (d, Seq::<char>::empty())
            }
        } else {
            (d, c.push(s.last()))
        }
    }
}

/// The non-empty pieces of `s` between non-alphanumeric characters.
pub open spec fn alnum_runs(s: Seq<char>) -> Seq<Seq<char>> {
    let (d, c) = runs_state(s);
    if c.len() > 0 {
        d.push(c)
    } else {
        d
    }
}

/// A segment title-cased: first character uppercased, the rest lowercased.
pub open spec fn title_case(part: Seq<char>) -> Seq<char> {
    if part.len() == 0 {
        Seq::<char>::empty()
    } else {
        char_upper(part[0]) + str_lower(part.drop_first())
    }
}

pub open spec fn concat_titles(parts: Seq<Seq<char>>) -> Seq<char>
    decreases parts.len(),
{
    if parts.len() == 0 {
        Seq::<char>::empty()
    } else {
        concat_titles(parts.drop_last()) + title_case(parts.last())
    }
}

/// What `derive_dbname` returns.
pub open spec fn dbname(id: Seq<char>) -> Seq<char> {
    concat_titles(alnum_runs(id))
}

fn title_case_exec(part: &[char]) -> (r: Vec<char>)
    ensures
        r@ == title_case(part@),
{
    if part.len() == 0 {
        return Vec::new();
    }
    let mut out = char_to_uppercase(part[0]);
    let rest = slice_vec(part, 1, part.len());
    assert(rest@ =~= part@.drop_first());
    let low = to_lowercase(string_of(rest.as_slice()).as_str());
    let lc = chars_of(low.as_str());
    append_chars(&mut out, lc.as_slice());
    out
}

/// Generic database-name derivation: split on non-alphanumerics, title-case
/// each segment (first char upper, rest lower), concatenate.
/// e.g. `my-site.example.com` -> `MySiteExampleCom`.
pub fn derive_dbname(id: &str) -> (res: String)
    ensures
        res@ == dbname(id@),
{
    let s = chars_of(id);
    let mut out: Vec<char> = Vec::new();
    let mut cur: Vec<char> = Vec::new();
    let mut i: usize = 0;
    proof {
        assert(s@.take(0) =~= Seq::<char>::empty());
    }
    while i < s.len()
        invariant
            i <= s@.len(),
            out@ == concat_titles(runs_state(s@.take(i as int)).0),
            cur@ == runs_state(s@.take(i as int)).1,
        decreases s@.len() - i,
    {
        let c = s[i];
        proof {
            assert(s@.take(i + 1).drop_last() =~= s@.take(i as int));
            assert(s@.take(i + 1).last() == c);
        }
        if !is_alphanumeric(c) {
            if cur.len() > 0 {
                let t = title_case_exec(cur.as_slice());
                let ghost d = runs_state(s@.take(i as int)).0;
                append_chars(&mut out, t.as_slice());
                assert(d.push(cur@).drop_last() =~= d);
                cur = Vec::new();
            }
        } else {
            cur.push(c);
        }
        i = i + 1;
    }
    assert(s@.take(s@.len() as int) =~= s@);
    if cur.len() > 0 {
        let t = title_case_exec(cur.as_slice());
        let ghost d = runs_state(s@).0;
        append_chars(&mut out, t.as_slice());
        assert(d.push(cur@).drop_last() =~= d);
    }
    string_of(out.as_slice())
}

// ── .env files ──────────────────────────────────────────────────────────────

/// Index of the first `c` in `s`.
pub open spec fn first_index(s: Seq<char>, c: char) -> Option<int> {
    if exists|i: int| 0 <= i < s.len() && s[i] == c {
        Some(choose|i: int| 0 <= i < s.len() && s[i] == c && forall|j: int| 0 <= j < i ==> s[j] != c)
    } else {
        None
    }
}

/// A value with one pair of matching surrounding quotes removed.
pub open spec fn unquoted(v: Seq<char>) -> Seq<char> {
    if v.len() > 0 && ((v[0] == '"' && v.last() == '"') || (v[0] == '\'' && v.last() == '\'')) {
        if v.len() >= 2 {
            v.subrange(1, v.len() - 1)
        } else {
            Seq::<char>::empty()
        }
    } else {
        v
    }
}

/// The value a `.env` line gives `key`: the line is not blank, not a
/// `#` comment, holds `=`, and the trimmed text before the first `=` is `key`.
pub open spec fn line_value(line: Seq<char>, key: Seq<char>) -> Option<Seq<char>> {
    let l = trim(line);
    if l.len() == 0 || l[0] == '#' {
        None
    } else {
        match first_index(l, '=') {
            Some(i) => if trim(l.take(i)) == key {
                Some(unquoted(trim(l.skip(i + 1))))
            } else {
                None
            },
            None => None,
        }
    }
}

/// The value of `key` in `.env` text: the first line that assigns it.
pub open spec fn dotenv_value_from(lines: Seq<Seq<char>>, key: Seq<char>, i: int) -> Option<
    Seq<char>,
>
    decreases lines.len() - i,
{
    if i < 0 || i >= lines.len() {
        None
    } else {
        match line_value(lines[i], key) {
            Some(v) => Some(v),
            None => dotenv_value_from(lines, key, i + 1),
        }
    }
}

pub open spec fn dotenv_value(content: Seq<char>, key: Seq<char>) -> Option<Seq<char>> {
    dotenv_value_from(lines_of(content), key, 0)
}

/// A text with no whitespace at either end is its own trim.
proof fn lemma_trim_plain(s: Seq<char>)
    requires
        s.len() > 0,
        !is_ws(s[0]),
        !is_ws(s.last()),
    ensures
        trim(s) == s,
{
    assert(crate::text::trim_start(s) == s);
}

/// The value a `.env` file gives a key assigned one quoted value is that
/// value without its quotes, for either quote style: in `k='v'` and in
/// `k="v"` the value of `k` is `v` (when `k` is a plain key: not empty, no
/// `=`, no whitespace at its ends, not a comment, on one line; and `v` holds
/// no line break).
pub proof fn law_dotenv_quotes_removed(k: Seq<char>, v: Seq<char>, q: char)
    requires
        q == '\'' || q == '"',
        k.len() > 0,
        !is_ws(k[0]),
        !is_ws(k.last()),
        k[0] != '#',
        forall|i: int| 0 <= i < k.len() ==> #[trigger] k[i] != '=' && k[i] != '\n',
        forall|i: int| 0 <= i < v.len() ==> #[trigger] v[i] != '\n',
    ensures
        dotenv_value(k + seq!['=', q] + v + seq![q, '\n'], k) == Some(v),
        line_value(k + seq!['=', q] + v + seq![q], k) == Some(v),
{
    let line = k + seq!['=', q] + v + seq![q];
    let content = k + seq!['=', q] + v + seq![q, '\n'];
    let n = k.len() as int;
    assert(line[0] == k[0]);
    assert(line.last() == q);
    lemma_trim_plain(line);
    // the first '=' is the one after the key
    assert(line[n] == '=');
    assert forall|j: int| 0 <= j < n implies line[j] != '=' by {
        assert(line[j] == k[j]);
    }
    let fi = choose|i: int| 0 <= i < line.len() && line[i] == '=' && forall|j: int| 0 <= j < i ==> line[j] != '=';
    assert(first_index(line, '=') == Some(fi));
    assert(fi == n) by {
        if fi < n {
            assert(line[fi] == k[fi]);
        }
        if fi > n {
            assert(line[n] != '=');
        }
    }
    assert(line.take(n) =~= k);
    lemma_trim_plain(k);
    let rhs = line.skip(n + 1);
    assert(rhs =~= seq![q] + v + seq![q]);
    lemma_trim_plain(rhs);
    assert(rhs.subrange(1, rhs.len() - 1) =~= v);
    assert(line_value(line, k) == Some(v));
    // the file has that one line
    assert forall|i: int| 0 <= i < line.len() implies #[trigger] line[i] != '\n' by {
        if i < n {
            assert(line[i] == k[i]);
        } else if n + 2 <= i < n + 2 + v.len() {
            assert(line[i] == v[i - n - 2]);
        }
    }
    crate::text::lemma_split_on_no_sep(line, '\n');
    assert(content.drop_last() =~= line);
    assert(content.last() == '\n');
    assert(split_on(content, '\n') == seq![line].push(Seq::<char>::empty()));
    assert(lines_of(content) =~= seq![line]);
}

fn find_char(s: &[char], c: char) -> (r: Option<usize>)
    ensures
        match r {
            Some(i) => first_index(s@, c) == Some(i as int) && i < s@.len(),
            None => first_index(s@, c).is_none(),
        },
{
    let mut i: usize = 0;
    while i < s.len()
        invariant
            i <= s@.len(),
            forall|j: int| 0 <= j < i ==> s@[j] != c,
        decreases s@.len() - i,
    {
        if s[i] == c {
            proof {
                let k = first_index(s@, c).unwrap();
                assert(s@[i as int] == c);
                if k < i {
                } else if k > i {
                }
            }
            return Some(i);
        }
        i = i + 1;
    }
    None
}

fn line_value_exec(line: &[char], key: &[char]) -> (r: Option<Vec<char>>)
    ensures
        match r {
            Some(v) => line_value(line@, key@) == Some(v@),
            None => line_value(line@, key@).is_none(),
        },
{
    let l = trim_chars(line);
    if l.len() == 0 || l[0] == '#' {
        return None;
    }
    match find_char(l.as_slice(), '=') {
        None => None,
        Some(i) => {
            let k0 = slice_vec(l.as_slice(), 0, i);
            assert(k0@ =~= l@.take(i as int));
            let k = trim_chars(k0.as_slice());
            if !crate::text::seq_eq(k.as_slice(), key) {
                return None;
            }
            let v0 = slice_vec(l.as_slice(), i + 1, l.len());
            assert(v0@ =~= l@.skip(i + 1));
            let v = trim_chars(v0.as_slice());
            let n = v.len();
            if n > 0 && ((v[0] == '"' && v[n - 1] == '"') || (v[0] == '\'' && v[n - 1] == '\'')) {
                if n >= 2 {
                    Some(slice_vec(v.as_slice(), 1, n - 1))
                } else {
                    Some(Vec::new())
                }
            } else {
                Some(v)
            }
        },
    }
}

/// The value `.env`-style `content` gives `key`: the first non-comment line
/// `KEY=VALUE` whose trimmed key matches, with the value trimmed and one pair
/// of surrounding quotes removed.
pub fn dotenv_lookup(content: &str, key: &str) -> (r: Option<String>)
    ensures
        match r {
            Some(v) => dotenv_value(content@, key@) == Some(v@),
            None => dotenv_value(content@, key@).is_none(),
        },
{
    let cs = chars_of(content);
    let k = chars_of(key);
    let lines = lines_chars(cs.as_slice());
    let ghost ls = lines_of(content@);
    let mut i: usize = 0;
    while i < lines.len()
        invariant
            i <= lines@.len(),
            views(lines@) == ls,
            ls == lines_of(content@),
            k@ == key@,
            dotenv_value_from(ls, key@, 0) == dotenv_value_from(ls, key@, i as int),
        decreases lines@.len() - i,
    {
        assert(lines@[i as int]@ == ls[i as int]);
        match line_value_exec(lines[i].as_slice(), k.as_slice()) {
            Some(v) => {
                assert(line_value(ls[i as int], key@) == Some(v@));
                assert(dotenv_value_from(ls, key@, i as int) == Some(v@));
                return Some(string_of(v.as_slice()));
            },
            None => {},
        }
        i = i + 1;
    }
    None
}

// ── placeholders ───────────────────────────────────────────────────────────

pub open spec fn opt_port_text(p: Option<u16>) -> Option<Seq<char>> {
    match p {
        Some(v) => Some(decimal(v as nat)),
        None => None,
    }
}

/// `{{port+N}}`: where the free-port search for this placeholder starts
/// (the port plus `N`), when it is one and both are known and in range.
pub open spec fn search_start(inner: Seq<char>, ctx: CtxView) -> Option<int> {
    if inner == "id"@ || inner == "path"@ || inner == "port"@ || inner == "parent_port"@ || inner
        == "backend_port"@ || inner == "dbname"@ || inner == "dbname_upper"@ || starts_with(
        inner,
        "env:"@,
    ) || (first_index(inner, '|').is_some() && inner.take(first_index(inner, '|').unwrap())
        == "parent_port"@) {
        None
    } else if first_index(inner, '+').is_some() && inner.take(first_index(inner, '+').unwrap())
        == "port"@ {
        let delta = parse_unsigned(inner.skip(first_index(inner, '+').unwrap() + 1), u16::MAX as nat);
        match (ctx.port, delta) {
            (Some(base), Some(d)) => if base + d <= u16::MAX {
                Some(base + d)
            } else {
                None
            },
            _ => None,
        }
    } else {
        None
    }
}

/// What a `{{inner}}` placeholder resolves to, against the context `ctx`
/// with `resolved` as the entries resolved so far and `found` the answer of
/// its free-port search (for `{{port+N}}`); `None` leaves it literal.
pub open spec fn placeholder_value(
    inner: Seq<char>,
    ctx: CtxView,
    resolved: Seq<(Seq<char>, Seq<char>)>,
    found: Option<u16>,
) -> Option<Seq<char>> {
    if inner == "id"@ {
        Some(ctx.id)
    } else if inner == "path"@ {
        Some(ctx.path)
    } else if inner == "port"@ {
        opt_port_text(ctx.port)
    } else if inner == "parent_port"@ {
        opt_port_text(ctx.parent_port)
    } else if inner == "backend_port"@ {
        opt_port_text(ctx.backend_port)
    } else if inner == "dbname"@ {
        Some(dbname(ctx.id))
    } else if inner == "dbname_upper"@ {
        Some(str_upper(dbname(ctx.id)))
    } else if starts_with(inner, "env:"@) {
        lookup(resolved, inner.skip(4))
    } else if first_index(inner, '|').is_some() && inner.take(first_index(inner, '|').unwrap())
        == "parent_port"@ {
        match ctx.parent_port {
            Some(p) => Some(decimal(p as nat)),
            None => Some(inner.skip(first_index(inner, '|').unwrap() + 1)),
        }
    } else if first_index(inner, '+').is_some() && inner.take(first_index(inner, '+').unwrap())
        == "port"@ {
        let delta = parse_unsigned(inner.skip(first_index(inner, '+').unwrap() + 1), u16::MAX as nat);
        match (ctx.port, delta) {
            (Some(base), Some(d)) => if base + d <= u16::MAX {
                match found {
                    Some(p) => Some(decimal(p as nat)),
                    None => None,
                }
            } else {
                None
            },
            _ => None,
        }
    } else {
        None
    }
}

fn port_text(p: Option<u16>) -> (r: Option<Vec<char>>)
    ensures
        match r {
            Some(v) => opt_port_text(p) == Some(v@),
            None => opt_port_text(p).is_none(),
        },
{
    match p {
        Some(v) => {
            let mut out: Vec<char> = Vec::new();
            push_decimal(&mut out, v as u64);
            assert(Seq::<char>::empty() + decimal(v as nat) =~= decimal(v as nat));
            Some(out)
        },
        None => None,
    }
}

/// Resolve a single `{{...}}` placeholder against the context.
/// Returns `None` for unknown placeholders (left as literal text).
/// The search a placeholder makes, answered with `found`: for `{{port+N}}`
/// an answer the free-port search can give, for any other none.
pub open spec fn searched<F: Fn(u16) -> bool>(f: F, inner: Seq<char>, ctx: CtxView, found: Option<u16>) -> bool {
    match search_start(inner, ctx) {
        Some(st) => port_search_result(f, ctx.used_ports, st, found),
        None => found is None,
    }
}

fn port_string(p: Option<u16>) -> (r: Option<String>)
    ensures
        opt_view(r) == opt_port_text(p),
{
    match port_text(p) {
        Some(v) => Some(string_of(v.as_slice())),
        None => None,
    }
}

/// A `{{port+N}}` placeholder searches for a free port from the port plus
/// `N`; what it resolves to follows the answer that search gave.
pub fn resolve_placeholder<F: Fn(u16) -> bool>(inner: &str, ctx: &EnvCtx, port_free: &F) -> (r:
    Option<String>)
    requires
        forall|p: u16| call_requires(*port_free, (p,)),
    ensures
        exists|found: Option<u16>|
            searched(*port_free, inner@, ctx.view(), found) && opt_view(r) == placeholder_value(
                inner@,
                ctx.view(),
                ctx.resolved.pairs(),
                found,
            ),
{
    let (r, found) = placeholder_answer(inner, ctx, port_free);
    assert(searched(*port_free, inner@, ctx.view(), found@));
    r
}

fn placeholder_answer<F: Fn(u16) -> bool>(inner: &str, ctx: &EnvCtx, port_free: &F) -> (r: (
    Option<String>,
    Ghost<Option<u16>>,
))
    requires
        forall|p: u16| call_requires(*port_free, (p,)),
    ensures
        searched(*port_free, inner@, ctx.view(), r.1@),
        opt_view(r.0) == placeholder_value(inner@, ctx.view(), ctx.resolved.pairs(), r.1@),
{
    let s = chars_of(inner);
    let s = s.as_slice();
    let n = s.len();
    let none: Ghost<Option<u16>> = Ghost(None);
    if eq_str(s, "id") {
        return (Some(ctx.id.clone()), none);
    }
    if eq_str(s, "path") {
        return (Some(ctx.path.clone()), none);
    }
    if eq_str(s, "port") {
        return (port_string(ctx.port), none);
    }
    if eq_str(s, "parent_port") {
        return (port_string(ctx.parent_port), none);
    }
    if eq_str(s, "backend_port") {
        return (port_string(ctx.backend_port), none);
    }
    if eq_str(s, "dbname") {
        return (Some(derive_dbname(ctx.id.as_str())), none);
    }
    if eq_str(s, "dbname_upper") {
        let d = derive_dbname(ctx.id.as_str());
        return (Some(to_uppercase(d.as_str())), none);
    }
    if crate::text::starts_with_str(s, "env:") {
        proof {
            reveal_strlit("env:");
        }
        let key = slice_vec(s, 4, n);
        assert(key@ =~= inner@.skip(4));
        return (
            match ctx.resolved.get(string_of(key.as_slice()).as_str()) {
                Some(v) => Some(v.clone()),
                None => None,
            },
            none,
        );
    }
    match find_char(s, '|') {
        Some(i) => {
            let k = slice_vec(s, 0, i);
            assert(k@ =~= inner@.take(i as int));
            if eq_str(k.as_slice(), "parent_port") {
                return (
                    match ctx.parent_port {
                        Some(p) => port_string(Some(p)),
                        None => {
                            let d = slice_vec(s, i + 1, n);
                            assert(d@ =~= inner@.skip(i + 1));
                            Some(string_of(d.as_slice()))
                        },
                    },
                    none,
                );
            }
        },
        None => {},
    }
    match find_char(s, '+') {
        Some(i) => {
            let k = slice_vec(s, 0, i);
            assert(k@ =~= inner@.take(i as int));
            if eq_str(k.as_slice(), "port") {
                let dtext = slice_vec(s, i + 1, n);
                assert(dtext@ =~= inner@.skip(i + 1));
                let delta = parse_unsigned_chars(dtext.as_slice(), 65535);
                match (ctx.port, delta) {
                    (Some(base), Some(d)) => {
                        if (base as u32) + d <= 65535 {
                            let start = (base as u32 + d) as u16;
                            let found = find_available_port(start, ctx.used_ports.as_slice(), port_free);
                            return (port_string(found), Ghost(found));
                        }
                        return (None, none);
                    },
                    _ => {
                        return (None, none);
                    },
                }
            }
        },
        None => {},
    }
    (None, none)
}

// ── templates ──────────────────────────────────────────────────────────────

/// The matches of `\{\{([^{}]+)\}\}` in `tpl`, left to right: byte offset of
/// each match, the matched text and the text of the first group.
pub uninterp spec fn placeholder_matches(tpl: Seq<char>) -> Seq<(usize, Seq<char>, Seq<char>)>;

/// `regex::Regex::captures_iter` with the placeholder pattern: each match's
/// start offset, its text and its inner group. The matches are the named
/// result for `tpl`. As the crate documents, they are successive and do not
/// overlap, each lies within `tpl` (its end is a byte offset, so a `usize`)
/// and each match's text is the text of `tpl` between its start and end.
#[verifier::external_body]
fn placeholder_find(tpl: &str) -> (r: Vec<(usize, String, String)>)
    ensures
        r@.len() == placeholder_matches(tpl@).len(),
        forall|i: int|
            0 <= i < r@.len() ==> (#[trigger] r@[i]).0 == placeholder_matches(tpl@)[i].0
                && r@[i].1@ == placeholder_matches(tpl@)[i].1 && r@[i].2@ == placeholder_matches(
                tpl@,
            )[i].2,
        forall|i: int|
            0 <= i < r@.len() ==> (#[trigger] r@[i]).0 + byte_len(r@[i].1@) <= usize::MAX,
        forall|i: int|
            0 <= i < r@.len() ==> (#[trigger] r@[i]).0 + byte_len(r@[i].1@) <= byte_len(tpl@),
        forall|i: int, j: int|
            #![trigger r@[i], r@[j]]
            0 <= i < j < r@.len() ==> r@[i].0 + byte_len(r@[i].1@) <= r@[j].0,
        forall|i: int|
            0 <= i < r@.len() ==> chars_between(
                tpl@,
                (#[trigger] r@[i]).0 as nat,
                (r@[i].0 + byte_len(r@[i].1@)) as nat,
            ) == r@[i].1@,
{
    let re = regex::Regex::new(r"\{\{([^{}]+)\}\}").unwrap();
    re.captures_iter(tpl).map(|c| (c.get(0).unwrap().start(), c[0].to_string(), c[1].to_string())).collect()
}

/// `tpl` from match `i` on, the previous match having ended at byte `prev`:
/// literal text between matches, each match replaced by its placeholder's
/// value (or kept when the placeholder is unknown); match `k`'s free-port
/// search, if it makes one, answered `outs[k]`.
pub open spec fn rendered_from(
    tpl: Seq<char>,
    ms: Seq<(usize, Seq<char>, Seq<char>)>,
    i: int,
    prev: nat,
    ctx: CtxView,
    resolved: Seq<(Seq<char>, Seq<char>)>,
    outs: Seq<Option<u16>>,
) -> Seq<char>
    decreases ms.len() - i,
{
    if i < 0 || i >= ms.len() {
        chars_between(tpl, prev, byte_len(tpl))
    } else {
        let m = ms[i];
        let rep = match placeholder_value(m.2, ctx, resolved, outs[i]) {
            Some(v) => v,
            None => m.1,
        };
        chars_between(tpl, prev, m.0 as nat) + rep + rendered_from(
            tpl,
            ms,
            i + 1,
            (m.0 + byte_len(m.1)) as nat,
            ctx,
            resolved,
            outs,
        )
    }
}

/// What `resolve_template` returns when the searches of its placeholders
/// answered `outs`.
pub open spec fn rendered(
    tpl: Seq<char>,
    ctx: CtxView,
    resolved: Seq<(Seq<char>, Seq<char>)>,
    outs: Seq<Option<u16>>,
) -> Seq<char> {
    rendered_from(tpl, placeholder_matches(tpl), 0, 0, ctx, resolved, outs)
}

/// `outs` holds, for each placeholder of `tpl`, an answer its search can give.
pub open spec fn template_searched<F: Fn(u16) -> bool>(f: F, tpl: Seq<char>, ctx: CtxView, outs: Seq<Option<u16>>) -> bool {
    &&& outs.len() == placeholder_matches(tpl).len()
    &&& forall|k: int|
        0 <= k < outs.len() ==> searched(f, (#[trigger] placeholder_matches(tpl)[k]).2, ctx, outs[k])
}

/// Resolve `{{placeholders}}` in a template string. Unknown placeholders are
/// left as literal text so a typo never silently becomes an empty string.
pub fn resolve_template<F: Fn(u16) -> bool>(tpl: &str, ctx: &EnvCtx, port_free: &F) -> (res:
    String)
    requires
        forall|p: u16| call_requires(*port_free, (p,)),
    ensures
        exists|outs: Seq<Option<u16>>|
            template_searched(*port_free, tpl@, ctx.view(), outs) && res@ == rendered(
                tpl@,
                ctx.view(),
                ctx.resolved.pairs(),
                outs,
            ),
        (forall|j: int, found: Option<u16>|
            0 <= j < placeholder_matches(tpl@).len() ==> #[trigger] placeholder_value(
                placeholder_matches(tpl@)[j].2,
                ctx.view(),
                ctx.resolved.pairs(),
                found,
            ) is None) ==> res@ == tpl@,
{
    let ms = placeholder_find(tpl);
    let ghost pm = placeholder_matches(tpl@);
    let s = chars_of(tpl);
    let total = str_byte_len(tpl);
    let mut out: Vec<char> = Vec::new();
    let mut prev: usize = 0;
    let mut i: usize = 0;
    let ghost r = ctx.resolved.pairs();
    let ghost mut outs: Seq<Option<u16>> = Seq::empty();
    assert forall|o: Seq<Option<u16>>|
        o.len() == pm.len() && o.take(0) == outs implies out@ + #[trigger] rendered_from(
            tpl@,
            pm,
            0,
            0,
            ctx.view(),
            r,
            o,
        ) == rendered(tpl@, ctx.view(), r, o) by {
        assert(out@ + rendered_from(tpl@, pm, 0, 0, ctx.view(), r, o) =~= rendered_from(tpl@, pm, 0, 0, ctx.view(), r, o));
    }
    while i < ms.len()
        invariant
            i <= ms@.len(),
            pm == placeholder_matches(tpl@),
            r == ctx.resolved.pairs(),
            s@ == tpl@,
            total == byte_len(tpl@),
            forall|p: u16| call_requires(*port_free, (p,)),
            ms@.len() == pm.len(),
            forall|k: int|
                0 <= k < ms@.len() ==> (#[trigger] ms@[k]).0 == pm[k].0 && ms@[k].1@ == pm[k].1
                    && ms@[k].2@ == pm[k].2,
            forall|k: int| 0 <= k < ms@.len() ==> (#[trigger] ms@[k]).0 + byte_len(ms@[k].1@) <= usize::MAX,
            outs.len() == i,
            forall|k: int| 0 <= k < i ==> searched(*port_free, (#[trigger] pm[k]).2, ctx.view(), outs[k]),
            forall|o: Seq<Option<u16>>|
                o.len() == pm.len() && o.take(i as int) == outs ==> out@ + #[trigger] rendered_from(
                    tpl@,
                    pm,
                    i as int,
                    prev as nat,
                    ctx.view(),
                    r,
                    o,
                ) == rendered(tpl@, ctx.view(), r, o),
        decreases ms@.len() - i,
    {
        let m = &ms[i];
        let lit = chars_between_exec(s.as_slice(), prev, m.0);
        let (rv, found) = placeholder_answer(m.2.as_str(), ctx, port_free);
        let rep = match rv {
            Some(v) => chars_of(v.as_str()),
            None => chars_of(m.1.as_str()),
        };
        let ghost before = out@;
        append_chars(&mut out, lit.as_slice());
        append_chars(&mut out, rep.as_slice());
        let w = byte_len_of_str(m.1.as_str());
        assert(m.0 + byte_len(m.1@) <= usize::MAX);
        let next = m.0 + w;
        proof {
            let old_outs = outs;
            outs = outs.push(found@);
            assert forall|o: Seq<Option<u16>>|
                o.len() == pm.len() && o.take(i + 1) == outs implies out@ + #[trigger] rendered_from(
                    tpl@,
                    pm,
                    i + 1,
                    next as nat,
                    ctx.view(),
                    r,
                    o,
                ) == rendered(tpl@, ctx.view(), r, o) by {
                assert(o.take(i as int) =~= old_outs);
                assert(o[i as int] == o.take(i + 1)[i as int]);
                let rest = rendered_from(tpl@, pm, i + 1, next as nat, ctx.view(), r, o);
                assert(rendered_from(tpl@, pm, i as int, prev as nat, ctx.view(), r, o) == lit@ + rep@ + rest);
                assert(out@ + rest =~= before + (lit@ + rep@ + rest));
            }
            assert forall|k: int| 0 <= k < i + 1 implies searched(*port_free, (#[trigger] pm[k]).2, ctx.view(), outs[k]) by {
                if k < i {
                    assert(outs[k] == old_outs[k]);
                }
            }
        }
        prev = next;
        i = i + 1;
    }
    let tail = chars_between_exec(s.as_slice(), prev, total);
    let ghost body = out@;
    append_chars(&mut out, tail.as_slice());
    proof {
        assert(outs.take(i as int) =~= outs);
        assert(body + rendered_from(tpl@, pm, i as int, prev as nat, ctx.view(), r, outs) == rendered(tpl@, ctx.view(), r, outs));
        assert(out@ == rendered(tpl@, ctx.view(), r, outs));
        assert(template_searched(*port_free, tpl@, ctx.view(), outs));
        if forall|j: int, found: Option<u16>|
            0 <= j < pm.len() ==> #[trigger] placeholder_value(
                pm[j].2,
                ctx.view(),
                r,
                found,
            ) is None {
            assert forall|k: int| 0 <= k < pm.len() implies (#[trigger] pm[k]).0 + byte_len(pm[k].1)
                <= byte_len(tpl@) && chars_between(tpl@, pm[k].0 as nat, (pm[k].0 + byte_len(pm[k].1)) as nat)
                == pm[k].1 by {
                assert(ms@[k].0 == pm[k].0 && ms@[k].1@ == pm[k].1);
            }
            assert forall|a: int, b: int| #![trigger pm[a], pm[b]] 0 <= a < b < pm.len() implies pm[a].0
                + byte_len(pm[a].1) <= pm[b].0 by {
                assert(ms@[a].0 == pm[a].0 && ms@[a].1@ == pm[a].1);
                assert(ms@[b].0 == pm[b].0);
            }
            assert forall|k: int| 0 <= k < pm.len() implies placeholder_value((#[trigger] pm[k]).2, ctx.view(), r, outs[k]) is None by {
                assert(placeholder_value(pm[k].2, ctx.view(), r, outs[k]) is None);
            }
            if pm.len() > 0 {
                assert(pm[0].0 >= 0);
            }
            lemma_unknown_placeholders_literal(tpl@, pm, 0, 0, ctx.view(), r, outs);
            lemma_chars_between_all(tpl@);
        }
    }
    string_of(out.as_slice())
}

fn byte_len_of_str(s: &str) -> (n: usize)
    ensures
        n == byte_len(s@),
{
    str_byte_len(s)
}

// ── env specs ──────────────────────────────────────────────────────────────

impl EnvVars {
    /// A copy with the same assignments.
    pub fn copy(&self) -> (r: Self)
        ensures
            r.pairs() == self.pairs(),
    {
        let mut entries: Vec<(String, String)> = Vec::new();
        let mut i: usize = 0;
        while i < self.entries.len()
            invariant
                i <= self.entries@.len(),
                pair_views(entries@) == pair_views(self.entries@).take(i as int),
            decreases self.entries@.len() - i,
        {
            let e = &self.entries[i];
            let ghost before = entries@;
            entries.push((e.0.clone(), e.1.clone()));
            assert(pair_views(entries@) =~= pair_views(before).push((e.0@, e.1@)));
            assert(pair_views(self.entries@).take(i + 1) =~= pair_views(self.entries@).take(
                i as int,
            ).push((e.0@, e.1@)));
            i = i + 1;
        }
        assert(pair_views(self.entries@).take(self.entries@.len() as int) =~= pair_views(
            self.entries@,
        ));
        EnvVars { entries }
    }
}

/// The text of file `f` in `files` (name, content): the first entry named `f`.
pub open spec fn file_text(files: Seq<(Seq<char>, Seq<char>)>, f: Seq<char>) -> Option<Seq<char>>
    decreases files.len(),
{
    if files.len() == 0 {
        None
    } else if files[0].0 == f {
        Some(files[0].1)
    } else {
        file_text(files.drop_first(), f)
    }
}

/// The value of `key` from the first of `names` (from index `i`) whose file
/// is readable and assigns it.
pub open spec fn file_value(
    files: Seq<(Seq<char>, Seq<char>)>,
    names: Seq<Seq<char>>,
    key: Seq<char>,
    i: int,
) -> Option<Seq<char>>
    decreases names.len() - i,
{
    if i < 0 || i >= names.len() {
        None
    } else {
        match file_text(files, names[i]) {
            Some(c) => match dotenv_value(c, key) {
                Some(v) => Some(v),
                None => file_value(files, names, key, i + 1),
            },
            None => file_value(files, names, key, i + 1),
        }
    }
}

pub open spec fn opt_view(o: Option<String>) -> Option<Seq<char>> {
    match o {
        Some(s) => Some(s@),
        None => None,
    }
}

/// The explicit value a spec gives: `value`, or `else_value` when the
/// project named in `if_running` is not running.
pub open spec fn chosen_value(spec: EnvSpecView, running: Seq<Seq<char>>) -> Option<Seq<char>> {
    match spec.if_running {
        Some(p) => if running.contains(p) {
            spec.value
        } else {
            spec.else_value
        },
        None => spec.value,
    }
}

/// The value one spec resolves to: the explicit value (templated), else the
/// first file that assigns the key, else the templated default; the
/// template's free-port searches answered `outs`.
pub open spec fn spec_value(
    spec: EnvSpecView,
    ctx: CtxView,
    resolved: Seq<(Seq<char>, Seq<char>)>,
    files: Seq<(Seq<char>, Seq<char>)>,
    running: Seq<Seq<char>>,
    outs: Seq<Option<u16>>,
) -> Option<Seq<char>> {
    match chosen_value(spec, running) {
        Some(t) => Some(rendered(t, ctx, resolved, outs)),
        None => match file_value(files, spec.file, spec.key, 0) {
            Some(v) => Some(v),
            None => match spec.default {
                Some(d) => Some(rendered(d, ctx, resolved, outs)),
                None => None,
            },
        },
    }
}

/// The template a spec's value is rendered from, if any.
pub open spec fn spec_template(
    spec: EnvSpecView,
    files: Seq<(Seq<char>, Seq<char>)>,
    running: Seq<Seq<char>>,
) -> Option<Seq<char>> {
    match chosen_value(spec, running) {
        Some(t) => Some(t),
        None => match file_value(files, spec.file, spec.key, 0) {
            Some(_) => None,
            None => spec.default,
        },
    }
}

/// `outs[i]` holds answers the searches of spec `i`'s template can give.
pub open spec fn env_searched<F: Fn(u16) -> bool>(
    f: F,
    specs: Seq<EnvSpecView>,
    ctx: CtxView,
    files: Seq<(Seq<char>, Seq<char>)>,
    running: Seq<Seq<char>>,
    outs: Seq<Seq<Option<u16>>>,
) -> bool {
    &&& outs.len() == specs.len()
    &&& forall|i: int|
        0 <= i < specs.len() ==> match spec_template(#[trigger] specs[i], files, running) {
            Some(t) => template_searched(f, t, ctx, outs[i]),
            None => true,
        }
}

/// The assignments made by `specs` from index `i` on, given the entries
/// resolved so far and the output so far; spec `k`'s searches answered
/// `outs[k]`.
pub open spec fn env_fold(
    specs: Seq<EnvSpecView>,
    i: int,
    ctx: CtxView,
    resolved: Seq<(Seq<char>, Seq<char>)>,
    out: Seq<(Seq<char>, Seq<char>)>,
    files: Seq<(Seq<char>, Seq<char>)>,
    running: Seq<Seq<char>>,
    outs: Seq<Seq<Option<u16>>>,
) -> Seq<(Seq<char>, Seq<char>)>
    decreases specs.len() - i,
{
    if i < 0 || i >= specs.len() {
        out
    } else {
        match spec_value(specs[i], ctx, resolved, files, running, outs[i]) {
            Some(v) => env_fold(
                specs,
                i + 1,
                ctx,
                resolved.push((specs[i].key, v)),
                out.push((specs[i].key, v)),
                files,
                running,
                outs,
            ),
            None => env_fold(specs, i + 1, ctx, resolved, out, files, running, outs),
        }
    }
}

pub open spec fn string_seq_views(v: Seq<String>) -> Seq<Seq<char>> {
    v.map_values(|s: String| s@)
}

fn contains_string(v: &[String], s: &String) -> (r: bool)
    ensures
        r == string_seq_views(v@).contains(s@),
{
    let mut i: usize = 0;
    while i < v.len()
        invariant
            i <= v@.len(),
            forall|j: int| 0 <= j < i ==> v@[j]@ != s@,
        decreases v@.len() - i,
    {
        if v[i] == *s {
            assert(string_seq_views(v@)[i as int] == s@);
            return true;
        }
        i = i + 1;
    }
    proof {
        if string_seq_views(v@).contains(s@) {
            let j = choose|j: int| 0 <= j < v@.len() && string_seq_views(v@)[j] == s@;
            assert(v@[j]@ == s@);
        }
    }
    false
}

fn file_text_exec<'a>(files: &'a [(String, String)], f: &String) -> (r: Option<&'a String>)
    ensures
        match r {
            Some(c) => file_text(pair_views(files@), f@) == Some(c@),
            None => file_text(pair_views(files@), f@).is_none(),
        },
{
    let mut i: usize = 0;
    assert(pair_views(files@).skip(0) =~= pair_views(files@));
    while i < files.len()
        invariant
            i <= files@.len(),
            file_text(pair_views(files@), f@) == file_text(pair_views(files@).skip(i as int), f@),
        decreases files@.len() - i,
    {
        let ghost rest = pair_views(files@).skip(i as int);
        assert(rest[0] == (files@[i as int].0@, files@[i as int].1@));
        assert(rest.drop_first() =~= pair_views(files@).skip(i + 1));
        if files[i].0 == *f {
            return Some(&files[i].1);
        }
        i = i + 1;
    }
    None
}

fn ctx_with(ctx: &EnvCtx, resolved: &EnvVars) -> (c: EnvCtx)
    ensures
        c.view() == ctx.view(),
        c.resolved.pairs() == resolved.pairs(),
{
    let mut ports: Vec<u16> = Vec::new();
    let mut i: usize = 0;
    while i < ctx.used_ports.len()
        invariant
            i <= ctx.used_ports@.len(),
            ports@ == ctx.used_ports@.take(i as int),
        decreases ctx.used_ports@.len() - i,
    {
        ports.push(ctx.used_ports[i]);
        assert(ctx.used_ports@.take(i + 1) =~= ctx.used_ports@.take(i as int).push(
            ctx.used_ports@[i as int],
        ));
        i = i + 1;
    }
    assert(ctx.used_ports@.take(ctx.used_ports@.len() as int) =~= ctx.used_ports@);
    EnvCtx {
        id: ctx.id.clone(),
        path: ctx.path.clone(),
        port: ctx.port,
        parent_port: ctx.parent_port,
        backend_port: ctx.backend_port,
        used_ports: ports,
        resolved: resolved.copy(),
    }
}

/// Resolve an env spec list into concrete (key, value) assignments.
///
/// Resolution order per spec: explicit `value` (or `else_value` when the
/// `if_running` project is not among `running`) → the first of the spec's
/// `file`s (looked up by name in `files`, pairs of file name and text) that
/// assigns the key → templated `default`. `{{env:KEY}}` in later specs can
/// reference earlier resolved entries.
pub fn resolve_env<F: Fn(u16) -> bool>(
    specs: &[EnvSpec],
    ctx: &EnvCtx,
    files: &[(String, String)],
    running: &[String],
    port_free: &F,
) -> (out: EnvVars)
    requires
        forall|p: u16| call_requires(*port_free, (p,)),
    ensures
        exists|outs: Seq<Seq<Option<u16>>>|
            env_searched(
                *port_free,
                env_views(specs@),
                ctx.view(),
                pair_views(files@),
                string_seq_views(running@),
                outs,
            ) && out.pairs() == env_fold(
                env_views(specs@),
                0,
                ctx.view(),
                ctx.resolved.pairs(),
                Seq::empty(),
                pair_views(files@),
                string_seq_views(running@),
                outs,
            ),
{
    let mut resolved = ctx.resolved.copy();
    let mut out = EnvVars::new();
    assert(out.pairs() =~= Seq::<(Seq<char>, Seq<char>)>::empty());
    let mut i: usize = 0;
    let ghost fv = pair_views(files@);
    let ghost rv = string_seq_views(running@);
    let ghost sv = env_views(specs@);
    let ghost mut outs: Seq<Seq<Option<u16>>> = Seq::empty();
    while i < specs.len()
        invariant
            i <= specs@.len(),
            fv == pair_views(files@),
            rv == string_seq_views(running@),
            sv == env_views(specs@),
            forall|p: u16| call_requires(*port_free, (p,)),
            outs.len() == i,
            forall|k: int|
                0 <= k < i ==> match spec_template(#[trigger] sv[k], fv, rv) {
                    Some(t) => template_searched(*port_free, t, ctx.view(), outs[k]),
                    None => true,
                },
            forall|o: Seq<Seq<Option<u16>>>|
                o.len() == sv.len() && o.take(i as int) == outs ==> #[trigger] env_fold(
                    sv,
                    i as int,
                    ctx.view(),
                    resolved.pairs(),
                    out.pairs(),
                    fv,
                    rv,
                    o,
                ) == env_fold(sv, 0, ctx.view(), ctx.resolved.pairs(), Seq::empty(), fv, rv, o),
        decreases specs@.len() - i,
    {
        let spec = &specs[i];
        let c = ctx_with(ctx, &resolved);
        let chosen: Option<String> = match &spec.if_running {
            Some(p) => {
                if contains_string(running, p) {
                    spec.value.clone()
                } else {
                    spec.else_value.clone()
                }
            },
            None => spec.value.clone(),
        };
        assert(sv[i as int] == spec@);
        assert(opt_view(chosen) == chosen_value(spec@, rv));
        let ghost mut touts: Seq<Option<u16>> = Seq::empty();
        let value: Option<String> = match chosen {
            Some(t) => {
                let v = resolve_template(t.as_str(), &c, port_free);
                proof {
                    touts = choose|o: Seq<Option<u16>>|
                        template_searched(*port_free, t@, c.view(), o) && v@ == rendered(
                            t@,
                            c.view(),
                            c.resolved.pairs(),
                            o,
                        );
                }
                Some(v)
            },
            None => {
                let ghost names = spec@.file;
                let mut found: Option<String> = None;
                let mut j: usize = 0;
                while j < spec.file.len() && found.is_none()
                    invariant
                        j <= spec.file@.len(),
                        names == spec@.file,
                        fv == pair_views(files@),
                        found.is_none() ==> file_value(fv, names, spec.key@, 0) == file_value(
                            fv,
                            names,
                            spec.key@,
                            j as int,
                        ),
                        found matches Some(v) ==> file_value(fv, names, spec.key@, 0) == Some(v@),
                    decreases spec.file@.len() - j,
                {
                    let f = &spec.file[j];
                    assert(names[j as int] == f@);
                    match file_text_exec(files, f) {
                        Some(content) => {
                            match dotenv_lookup(content.as_str(), spec.key.as_str()) {
                                Some(v) => {
                                    found = Some(v);
                                },
                                None => {},
                            }
                        },
                        None => {},
                    }
                    j = j + 1;
                }
                assert(opt_view(found) == file_value(fv, names, spec.key@, 0));
                found
            },
        };
        let value: Option<String> = match value {
            Some(v) => Some(v),
            None => match &spec.default {
                Some(d) => {
                    let v = resolve_template(d.as_str(), &c, port_free);
                    proof {
                        touts = choose|o: Seq<Option<u16>>|
                            template_searched(*port_free, d@, c.view(), o) && v@ == rendered(
                                d@,
                                c.view(),
                                c.resolved.pairs(),
                                o,
                            );
                    }
                    Some(v)
                },
                None => None,
            },
        };
        assert(opt_view(value) == spec_value(spec@, ctx.view(), resolved.pairs(), fv, rv, touts));
        let ghost before_resolved = resolved.pairs();
        let ghost before_out = out.pairs();
        match value {
            Some(v) => {
                resolved.insert(spec.key.clone(), v.clone());
                out.insert(spec.key.clone(), v);
            },
            None => {},
        }
        proof {
            let old_outs = outs;
            outs = outs.push(touts);
            assert forall|o: Seq<Seq<Option<u16>>>|
                o.len() == sv.len() && o.take(i + 1) == outs implies #[trigger] env_fold(
                    sv,
                    i + 1,
                    ctx.view(),
                    resolved.pairs(),
                    out.pairs(),
                    fv,
                    rv,
                    o,
                ) == env_fold(sv, 0, ctx.view(), ctx.resolved.pairs(), Seq::empty(), fv, rv, o) by {
                assert(o.take(i as int) =~= old_outs);
                assert(o[i as int] == o.take(i + 1)[i as int]);
                assert(env_fold(sv, i as int, ctx.view(), before_resolved, before_out, fv, rv, o)
                    == env_fold(sv, i + 1, ctx.view(), resolved.pairs(), out.pairs(), fv, rv, o));
            }
            assert forall|k: int| 0 <= k < i + 1 implies match spec_template(#[trigger] sv[k], fv, rv) {
                Some(t) => template_searched(*port_free, t, ctx.view(), outs[k]),
                None => true,
            } by {
                if k < i {
                    assert(outs[k] == old_outs[k]);
                }
            }
        }
        i = i + 1;
    }
    proof {
        assert(outs.take(i as int) =~= outs);
        assert(env_fold(sv, i as int, ctx.view(), resolved.pairs(), out.pairs(), fv, rv, outs)
            == env_fold(sv, 0, ctx.view(), ctx.resolved.pairs(), Seq::empty(), fv, rv, outs));
        assert(env_searched(*port_free, sv, ctx.view(), fv, rv, outs));
    }
    out
}

/// A template without placeholders is its own value.
pub proof fn law_template_without_placeholders_is_literal(
    tpl: Seq<char>,
    ctx: CtxView,
    resolved: Seq<(Seq<char>, Seq<char>)>,
    outs: Seq<Option<u16>>,
)
    requires
        placeholder_matches(tpl).len() == 0,
    ensures
        rendered(tpl, ctx, resolved, outs) == tpl,
{
    lemma_chars_between_all(tpl);
}

/// Text made only of unknown placeholders and literal text renders as
/// itself from match `i` on.
proof fn lemma_unknown_placeholders_literal(
    tpl: Seq<char>,
    ms: Seq<(usize, Seq<char>, Seq<char>)>,
    i: int,
    prev: nat,
    ctx: CtxView,
    resolved: Seq<(Seq<char>, Seq<char>)>,
    outs: Seq<Option<u16>>,
)
    requires
        0 <= i <= ms.len(),
        prev <= byte_len(tpl),
        i < ms.len() ==> prev <= ms[i].0,
        forall|k: int|
            0 <= k < ms.len() ==> (#[trigger] ms[k]).0 + byte_len(ms[k].1) <= byte_len(tpl)
                && chars_between(tpl, ms[k].0 as nat, (ms[k].0 + byte_len(ms[k].1)) as nat) == ms[k].1,
        forall|a: int, b: int|
            #![trigger ms[a], ms[b]]
            0 <= a < b < ms.len() ==> ms[a].0 + byte_len(ms[a].1) <= ms[b].0,
        forall|k: int|
            0 <= k < ms.len() ==> placeholder_value((#[trigger] ms[k]).2, ctx, resolved, outs[k]) is None,
    ensures
        rendered_from(tpl, ms, i, prev, ctx, resolved, outs) == chars_between(tpl, prev, byte_len(tpl)),
    decreases ms.len() - i,
{
    if i < ms.len() {
        let m = ms[i];
        let end = (m.0 + byte_len(m.1)) as nat;
        assert(placeholder_value(ms[i].2, ctx, resolved, outs[i]) is None);
        if i + 1 < ms.len() {
            assert(ms[i].0 + byte_len(ms[i].1) <= ms[i + 1].0);
        }
        lemma_unknown_placeholders_literal(tpl, ms, i + 1, end, ctx, resolved, outs);
        lemma_chars_between_concat(tpl, prev, m.0 as nat, end);
        lemma_chars_between_concat(tpl, prev, end, byte_len(tpl));
        assert(chars_between(tpl, prev, m.0 as nat) + m.1 + chars_between(tpl, end, byte_len(tpl))
            =~= chars_between(tpl, prev, end) + chars_between(tpl, end, byte_len(tpl)));
    }
}

/// Adjacent byte ranges of a text join.
proof fn lemma_chars_between_concat(s: Seq<char>, a: nat, b: nat, c: nat)
    requires
        a <= b <= c,
    ensures
        chars_between(s, a, b) + chars_between(s, b, c) == chars_between(s, a, c),
    decreases s.len(),
{
    if s.len() > 0 {
        let t = s.drop_last();
        let o = byte_len(t);
        lemma_chars_between_concat(t, a, b, c);
        if a <= o && o < b {
            lemma_chars_between_empty_above(t, b, c);
            assert(chars_between(s, a, b) + chars_between(s, b, c) =~= chars_between(t, a, b) + seq![s.last()]);
            assert(chars_between(s, a, c) =~= chars_between(t, a, c) + seq![s.last()]);
            assert(chars_between(t, a, c) =~= chars_between(t, a, b) + chars_between(t, b, c));
        } else {
            assert(chars_between(s, a, b) + chars_between(s, b, c) =~= chars_between(t, a, b) + (
            chars_between(t, b, c) + if b <= o < c {
                seq![s.last()]
            } else {
                Seq::<char>::empty()
            }));
        }
    }
}

/// No character of a text starts at or past its end.
proof fn lemma_chars_between_empty_above(s: Seq<char>, b: nat, c: nat)
    requires
        byte_len(s) <= b,
    ensures
        chars_between(s, b, c) == Seq::<char>::empty(),
    decreases s.len(),
{
    if s.len() > 0 {
        let t = s.drop_last();
        assert(utf8_width(s.last()) > 0);
        lemma_chars_between_empty_above(t, b, c);
        assert(chars_between(s, b, c) =~= chars_between(t, b, c));
    }
}

proof fn lemma_chars_between_all(s: Seq<char>)
    ensures
        chars_between(s, 0, byte_len(s)) == s,
    decreases s.len(),
{
    if s.len() > 0 {
        lemma_chars_between_all(s.drop_last());
        lemma_chars_between_prefix_stable(s.drop_last(), byte_len(s.drop_last()), byte_len(s));
        assert(s.last() == s[s.len() - 1]);
        assert(utf8_width(s.last()) > 0);
        assert(s.drop_last().push(s.last()) =~= s);
    }
}

proof fn lemma_chars_between_prefix_stable(s: Seq<char>, b: nat, c: nat)
    requires
        byte_len(s) <= b <= c,
    ensures
        chars_between(s, 0, b) == chars_between(s, 0, c),
    decreases s.len(),
{
    if s.len() > 0 {
        assert(byte_len(s.drop_last()) + utf8_width(s.last()) == byte_len(s));
        lemma_chars_between_prefix_stable(s.drop_last(), b, c);
    }
}

} // verus!
