//! How a process is launched and how its output and exit are recorded: the
//! command line after host and prod mode, the decoration of error output,
//! and the messages of failures.
use crate::num::{decimal, push_decimal};
use crate::text::{
    append_chars, chars_of, contains_seq, contains_str, eq_str, starts_with, starts_with_str,
    string_of,
};
use crate::unicode::{str_lower, to_lowercase};
use vstd::prelude::*;

verus! {

// ── commands ───────────────────────────────────────────────────────────────

/// Whether a command ultimately runs Vite's dev server: a direct `vite`
/// invocation (but not `vitest`), or a package-manager wrapper that runs
/// the `dev` script or Vite.
pub open spec fn vite_command(raw: Seq<char>) -> bool {
    if starts_with(raw, "vite "@) || raw == "vite"@ {
        !contains_seq(raw, "vitest"@)
    } else {
        contains_seq(raw, "pnpm dev"@) || contains_seq(raw, "pnpm dlx vite"@) || contains_seq(
            raw,
            "npm run dev"@,
        ) || contains_seq(raw, "npm exec vite"@) || contains_seq(raw, "yarn dev"@)
            || contains_seq(raw, "yarn vite"@)
    }
}

pub fn is_vite_command(raw: &str) -> (r: bool)
    ensures
        r == vite_command(raw@),
{
    let c = chars_of(raw);
    let s = c.as_slice();
    if starts_with_str(s, "vite ") || eq_str(s, "vite") {
        return !contains_str(s, "vitest");
    }
    contains_str(s, "pnpm dev") || contains_str(s, "pnpm dlx vite") || contains_str(s, "npm run dev")
        || contains_str(s, "npm exec vite") || contains_str(s, "yarn dev") || contains_str(
        s,
        "yarn vite",
    )
}

/// `str::replace`: every non-overlapping occurrence of `from`, scanning
/// left to right, replaced by `to`.
pub open spec fn replaced(s: Seq<char>, from: Seq<char>, to: Seq<char>) -> Seq<char>
    decreases s.len(),
{
    if s.len() == 0 {
        Seq::empty()
    } else if from.len() > 0 && starts_with(s, from) {
        to + replaced(s.skip(from.len() as int), from, to)
    } else {
        seq![s[0]] + replaced(s.drop_first(), from, to)
    }
}

pub fn replace_all(s: &[char], from: &[char], to: &[char]) -> (r: Vec<char>)
    requires
        from@.len() > 0,
    ensures
        r@ == replaced(s@, from@, to@),
{
    let mut out: Vec<char> = Vec::new();
    let mut i: usize = 0;
    assert(s@.skip(0) =~= s@);
    while i < s.len()
        invariant
            i <= s@.len(),
            from@.len() > 0,
            replaced(s@, from@, to@) == out@ + replaced(s@.skip(i as int), from@, to@),
        decreases s@.len() - i,
    {
        let ghost rest = s@.skip(i as int);
        if crate::text::occurs_at(s, i, from) {
            append_chars(&mut out, to);
            assert(rest.skip(from@.len() as int) =~= s@.skip(i + from@.len()));
            assert(replaced(rest, from@, to@) == to@ + replaced(rest.skip(from@.len() as int), from@, to@));
            i = i + from.len();
        } else {
            out.push(s[i]);
            assert(rest.drop_first() =~= s@.skip(i + 1));
            assert(rest[0] == s@[i as int]);
            assert(replaced(rest, from@, to@) == seq![s@[i as int]] + replaced(rest.drop_first(), from@, to@));
            i = i + 1;
        }
    }
    assert(s@.skip(s@.len() as int) =~= Seq::<char>::empty());
    out
}

/// The command a process is launched with, and whether `HOST=0.0.0.0` is
/// set: in host mode a Vite command gets `--host 0.0.0.0` (Vite ignores
/// `HOST`), others get the variable; in prod mode a Vite dev command runs
/// the preview instead.
pub open spec fn launch_command(raw: Seq<char>, host: bool, prod: bool) -> (Seq<char>, bool) {
    let (c, host_env) = if host {
        if vite_command(raw) {
            (raw + " --host 0.0.0.0"@, false)
        } else {
            (raw, true)
        }
    } else {
        (raw, false)
    };
    if prod && vite_command(c) {
        (
            replaced(
                replaced(replaced(c, "pnpm dev"@, "pnpm preview"@), "npm run dev"@, "npm run preview"@),
                "yarn dev"@,
                "yarn preview"@,
            ),
            host_env,
        )
    } else {
        (c, host_env)
    }
}

pub fn command_for_launch(raw: &str, host: bool, prod: bool) -> (r: (String, bool))
    ensures
        (r.0@, r.1) == launch_command(raw@, host, prod),
{
    let mut c = chars_of(raw);
    let mut host_env = false;
    if host {
        if is_vite_command(raw) {
            append_chars(&mut c, chars_of(" --host 0.0.0.0").as_slice());
        } else {
            host_env = true;
        }
    }
    let cs = string_of(c.as_slice());
    if prod && is_vite_command(cs.as_str()) {
        proof {
            reveal_strlit("pnpm dev");
            reveal_strlit("npm run dev");
            reveal_strlit("yarn dev");
        }
        let a = replace_all(c.as_slice(), chars_of("pnpm dev").as_slice(), chars_of("pnpm preview").as_slice());
        let b = replace_all(a.as_slice(), chars_of("npm run dev").as_slice(), chars_of("npm run preview").as_slice());
        let d = replace_all(b.as_slice(), chars_of("yarn dev").as_slice(), chars_of("yarn preview").as_slice());
        (string_of(d.as_slice()), host_env)
    } else {
        (cs, host_env)
    }
}

// ── output and exits ───────────────────────────────────────────────────────

/// A line of error output as logged: build-progress lines (compiling,
/// finished, running, building, in any case) are kept as they are; other
/// lines are marked `[ERR]` in red.
pub open spec fn stderr_logged(line: Seq<char>) -> Seq<char> {
    let lower = str_lower(line);
    if contains_seq(lower, "compiling"@) || contains_seq(lower, "finished"@) || contains_seq(
        lower,
        "running"@,
    ) || contains_seq(lower, "building"@) {
        line
    } else {
        "\x1b[31m[ERR] "@ + line + "\x1b[0m"@
    }
}

pub fn stderr_line(line: &str) -> (r: String)
    ensures
        r@ == stderr_logged(line@),
{
    let lower = to_lowercase(line);
    let lc = chars_of(lower.as_str());
    let l = lc.as_slice();
    if contains_str(l, "compiling") || contains_str(l, "finished") || contains_str(l, "running")
        || contains_str(l, "building") {
        crate::text::copy_str(line)
    } else {
        let mut out = chars_of("\x1b[31m[ERR] ");
        append_chars(&mut out, chars_of(line).as_slice());
        append_chars(&mut out, chars_of("\x1b[0m").as_slice());
        string_of(out.as_slice())
    }
}

/// The log line recorded when a process cannot be spawned.
pub open spec fn spawn_failure_logged(err: Seq<char>) -> Seq<char> {
    "\x1b[31m[CRITICAL] Failed to spawn: "@ + err + "\x1b[0m"@
}

/// The error reported when a process cannot be spawned.
pub open spec fn spawn_failure_message(err: Seq<char>) -> Seq<char> {
    "Failed to spawn: "@ + err
}

/// A signed integer in decimal.
pub open spec fn signed_decimal(n: int) -> Seq<char> {
    if n < 0 {
        "-"@ + decimal((-n) as nat)
    } else {
        decimal(n as nat)
    }
}

/// The crash reason of a process that exited unsuccessfully; a process
/// killed by a signal has no exit code and is reported as code -1.
pub open spec fn exit_message(code: Option<i32>) -> Seq<char> {
    "Exited with code "@ + signed_decimal(
        match code {
            Some(c) => c as int,
            None => -1,
        },
    )
}

pub fn exit_text(code: Option<i32>) -> (r: String)
    ensures
        r@ == exit_message(code),
{
    let c: i32 = match code {
        Some(c) => c,
        None => -1,
    };
    let mut out = chars_of("Exited with code ");
    if c < 0 {
        out.push('-');
        let m: i64 = c as i64;
        let a: u64 = (-m) as u64;
        push_decimal(&mut out, a);
        assert(out@ == "Exited with code "@ + ("-"@ + decimal((-(c as int)) as nat))) by {
            reveal_strlit("-");
        }
    } else {
        push_decimal(&mut out, c as u64);
    }
    string_of(out.as_slice())
}

/// How a launched process ended.
pub enum ExitOutcome {
    /// It exited successfully.
    Success,
    /// It exited unsuccessfully, with its exit code if it has one.
    Failure(Option<i32>),
    /// Waiting for it failed, with the error's text.
    WaitError(String),
}

} // verus!
