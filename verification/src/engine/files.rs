//! What the process table reads and writes outside itself: where logs go
//! and how long a log file may grow, the env files a start reads, and the
//! firewall rules of host mode.
use super::start::{engine_parent, launch_ctx};
use super::{ProcessManager, StatusView};
use crate::config::{absolutize, absolutized, EnvSpecView, ProjectView};
use crate::num::{decimal, push_decimal};
use crate::text::{
    append_chars, chars_of, contains_seq, has_infix, join_lines, joined, lines_chars, lines_of,
    split_words, string_of, trim, trim_chars, views, words,
};
use vstd::prelude::*;

verus! {

// ── log files ──────────────────────────────────────────────────────────────

/// The most lines a process's log file keeps.
pub const MAX_LOG_FILE_LINES: usize = 2500;

/// The log file of process `id`.
pub open spec fn log_file(id: Seq<char>) -> Seq<char> {
    absolutized("/tmp/matrix-logs"@, id + ".log"@)
}

pub fn log_path(id: &str) -> (r: String)
    ensures
        r@ == log_file(id@),
{
    let mut name = chars_of(id);
    append_chars(&mut name, chars_of(".log").as_slice());
    absolutize("/tmp/matrix-logs", string_of(name.as_slice()).as_str())
}

/// A log file's new content when it holds more than `MAX_LOG_FILE_LINES`
/// lines: the newest lines, each ended by a newline. `None` when it is
/// within the cap.
pub open spec fn capped(content: Seq<char>) -> Option<Seq<char>> {
    let ls = lines_of(content);
    if ls.len() > MAX_LOG_FILE_LINES {
        Some(joined(ls.skip(ls.len() - MAX_LOG_FILE_LINES)) + seq!['\n'])
    } else {
        None
    }
}

pub fn capped_log(content: &str) -> (r: Option<String>)
    ensures
        match r {
            Some(s) => capped(content@) == Some(s@),
            None => capped(content@).is_none(),
        },
{
    let cs = chars_of(content);
    let ls = lines_chars(cs.as_slice());
    if ls.len() <= MAX_LOG_FILE_LINES {
        return None;
    }
    let start = ls.len() - MAX_LOG_FILE_LINES;
    let mut kept: Vec<Vec<char>> = Vec::new();
    let mut i = start;
    while i < ls.len()
        invariant
            start <= i <= ls@.len(),
            views(kept@) == views(ls@).subrange(start as int, i as int),
        decreases ls@.len() - i,
    {
        let ghost before = kept@;
        kept.push(ls[i].clone());
        assert(views(kept@) =~= views(before).push(ls@[i as int]@));
        assert(views(ls@).subrange(start as int, i + 1) =~= views(ls@).subrange(start as int, i as int).push(
            ls@[i as int]@,
        ));
        i = i + 1;
    }
    assert(views(ls@).subrange(start as int, ls@.len() as int) =~= views(ls@).skip(start as int));
    let mut out = join_lines(kept.as_slice());
    out.push('\n');
    Some(string_of(out.as_slice()))
}

// ── env files ──────────────────────────────────────────────────────────────

/// The files named by `specs`, in order.
pub open spec fn spec_files(specs: Seq<EnvSpecView>) -> Seq<Seq<char>>
    decreases specs.len(),
{
    if specs.len() == 0 {
        Seq::empty()
    } else {
        spec_files(specs.drop_last()) + specs.last().file
    }
}

impl ProcessManager {
    /// The env files a start of `id` may read: each file named by its env
    /// specs, with its path against the directory the env resolves in (the
    /// parent's for an engine).
    pub fn env_files(&self, id: &str) -> (r: Vec<(String, String)>)
        requires
            self.wf(),
        ensures
            r@.len() == spec_files(
                if self.processes().contains_key(id@) {
                    self.processes()[id@].0.env
                } else {
                    Seq::empty()
                },
            ).len(),
            forall|i: int|
                0 <= i < r@.len() ==> (#[trigger] r@[i]).0@ == spec_files(
                    if self.processes().contains_key(id@) {
                        self.processes()[id@].0.env
                    } else {
                        Seq::empty()
                    },
                )[i] && r@[i].1@ == absolutized(
                    launch_ctx(self.processes(), self.entries(), id@, 0).path,
                    r@[i].0@,
                ),
    {
        let mut r: Vec<(String, String)> = Vec::new();
        let ghost base_v = launch_ctx(self.processes(), self.entries(), id@, 0).path;
        let ctx = self.launch_ctx_of(id, 0);
        let base = ctx.path;
        match super::index_of(&self.processes, chars_of(id).as_slice()) {
            None => {
                assert(spec_files(Seq::<EnvSpecView>::empty()) =~= Seq::<Seq<char>>::empty());
                r
            },
            Some(k) => {
                proof {
                    super::lemma_table_at(self.processes@, k as int);
                }
                let specs = &self.processes[k].config.env;
                let ghost sv = crate::config::env_views(specs@);
                let mut i: usize = 0;
                assert(sv.take(0) =~= Seq::<EnvSpecView>::empty());
                while i < specs.len()
                    invariant
                        i <= specs@.len(),
                        sv == crate::config::env_views(specs@),
                        base@ == base_v,
                        r@.len() == spec_files(sv.take(i as int)).len(),
                        forall|j: int|
                            0 <= j < r@.len() ==> (#[trigger] r@[j]).0@ == spec_files(
                                sv.take(i as int),
                            )[j] && r@[j].1@ == absolutized(base_v, r@[j].0@),
                    decreases specs@.len() - i,
                {
                    let files = &specs[i].file;
                    let ghost before = r@;
                    let ghost acc = spec_files(sv.take(i as int));
                    let mut j: usize = 0;
                    while j < files.len()
                        invariant
                            j <= files@.len(),
                            base@ == base_v,
                            r@.len() == acc.len() + j,
                            forall|q: int| 0 <= q < acc.len() ==> #[trigger] r@[q] == before[q],
                            forall|q: int|
                                0 <= q < acc.len() ==> (#[trigger] before[q]).0@ == acc[q]
                                    && before[q].1@ == absolutized(base_v, before[q].0@),
                            forall|q: int|
                                0 <= q < j ==> (#[trigger] r@[acc.len() + q]).0@ == files@[q]@
                                    && r@[acc.len() + q].1@ == absolutized(base_v, files@[q]@),
                        decreases files@.len() - j,
                    {
                        let name = files[j].clone();
                        let path = absolutize(base.as_str(), name.as_str());
                        r.push((name, path));
                        j = j + 1;
                    }
                    proof {
                        let next = sv.take(i + 1);
                        assert(next.drop_last() =~= sv.take(i as int));
                        assert(next.last() == specs@[i as int]@);
                        assert(spec_files(next) == acc + crate::config::strs(files@));
                        assert forall|q: int| 0 <= q < r@.len() implies (#[trigger] r@[q]).0@
                            == spec_files(next)[q] && r@[q].1@ == absolutized(base_v, r@[q].0@) by {
                            if q >= acc.len() {
                                assert(r@[acc.len() + (q - acc.len())] == r@[q]);
                            }
                        }
                    }
                    i = i + 1;
                }
                assert(sv.take(sv.len() as int) =~= sv);
                r
            },
        }
    }
}

// ── host mode firewall rules ───────────────────────────────────────────────

/// The first of `ls` that contains `pat`.
pub open spec fn first_line_with(ls: Seq<Seq<char>>, pat: Seq<char>) -> Option<Seq<char>>
    decreases ls.len(),
{
    if ls.len() == 0 {
        None
    } else if contains_seq(ls[0], pat) {
        Some(ls[0])
    } else {
        first_line_with(ls.drop_first(), pat)
    }
}

/// `s` without its trailing run of `c` (`str::trim_end_matches(c)`).
pub open spec fn strip_trailing(s: Seq<char>, c: char) -> Seq<char>
    decreases s.len(),
{
    if s.len() > 0 && s.last() == c {
        strip_trailing(s.drop_last(), c)
    } else {
        s
    }
}

/// The handle of the firewall rule for `port` in an `nft -a` listing: the
/// last word (trailing `/` removed) of the first line that mentions
/// `tcp dport <port>`.
pub open spec fn rule_handle_in(listing: Seq<char>, port: u16) -> Option<Seq<char>> {
    match first_line_with(lines_of(listing), "tcp dport "@ + decimal(port as nat)) {
        None => None,
        Some(l) => if words(l).len() == 0 {
            None
        } else {
            Some(strip_trailing(words(l).last(), '/'))
        },
    }
}

fn strip_trailing_chars(s: &[char], c: char) -> (r: Vec<char>)
    ensures
        r@ == strip_trailing(s@, c),
{
    let mut n = s.len();
    assert(s@.take(n as int) =~= s@);
    while n > 0 && s[n - 1] == c
        invariant
            n <= s@.len(),
            strip_trailing(s@, c) == strip_trailing(s@.take(n as int), c),
        decreases n,
    {
        assert(s@.take(n as int).drop_last() =~= s@.take(n - 1));
        n = n - 1;
    }
    crate::text::slice_vec(s, 0, n)
}

pub fn rule_handle(listing: &str, port: u16) -> (r: Option<String>)
    ensures
        match r {
            Some(h) => rule_handle_in(listing@, port) == Some(h@),
            None => rule_handle_in(listing@, port).is_none(),
        },
{
    let mut pat = chars_of("tcp dport ");
    push_decimal(&mut pat, port as u64);
    let ls = lines_chars(chars_of(listing).as_slice());
    let ghost lv = views(ls@);
    let mut i: usize = 0;
    assert(lv.skip(0) =~= lv);
    while i < ls.len()
        invariant
            i <= ls@.len(),
            lv == views(ls@),
            lv == lines_of(listing@),
            pat@ == "tcp dport "@ + decimal(port as nat),
            first_line_with(lv, pat@) == first_line_with(lv.skip(i as int), pat@),
        decreases ls@.len() - i,
    {
        proof {
            assert(lv.skip(i as int)[0] == ls@[i as int]@);
            assert(lv.skip(i as int).drop_first() =~= lv.skip(i + 1));
        }
        if has_infix(ls[i].as_slice(), pat.as_slice()) {
            let ws = split_words(ls[i].as_slice());
            if ws.len() == 0 {
                return None;
            }
            let last = &ws[ws.len() - 1];
            assert(views(ws@).last() == last@);
            let h = strip_trailing_chars(last.as_slice(), '/');
            return Some(string_of(h.as_slice()));
        }
        i = i + 1;
    }
    None
}

/// The error when the firewall tool cannot be run.
pub open spec fn nft_unavailable(port: u16, err: Seq<char>) -> Seq<char> {
    "Cannot open port "@ + decimal(port as nat) + ": nftables is not available ("@ + err
        + "). Install nftables or run Matrix with sudo."@
}

/// The error when the firewall tool refuses the rule.
pub open spec fn nft_rejected(port: u16, stderr: Seq<char>) -> Seq<char> {
    "Cannot open port "@ + decimal(port as nat) + ": nft rejected the rule: "@ + trim(stderr)
}

pub fn nft_unavailable_message(port: u16, err: &str) -> (r: String)
    ensures
        r@ == nft_unavailable(port, err@),
{
    let mut m = chars_of("Cannot open port ");
    push_decimal(&mut m, port as u64);
    append_chars(&mut m, chars_of(": nftables is not available (").as_slice());
    append_chars(&mut m, chars_of(err).as_slice());
    append_chars(&mut m, chars_of("). Install nftables or run Matrix with sudo.").as_slice());
    string_of(m.as_slice())
}

pub fn nft_rejected_message(port: u16, stderr: &str) -> (r: String)
    ensures
        r@ == nft_rejected(port, stderr@),
{
    let mut m = chars_of("Cannot open port ");
    push_decimal(&mut m, port as u64);
    append_chars(&mut m, chars_of(": nft rejected the rule: ").as_slice());
    let t = trim_chars(chars_of(stderr).as_slice());
    append_chars(&mut m, t.as_slice());
    string_of(m.as_slice())
}

} // verus!
