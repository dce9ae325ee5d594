//! Shared UI state types and ANSI escape stripping.
use crate::text::{chars_of, string_of};
use vstd::prelude::*;

verus! {

#[derive(PartialEq, Eq, Structural, Debug, Clone, Copy)]
pub enum ActiveView {
    Dashboard,
    Projects,
    Logs,
    EnvEditor,
}

/// Severity of a toast notification.
#[derive(Clone, Copy, Debug, PartialEq, Eq, Structural)]
pub enum ToastTone {
    Info,
    Success,
    Warn,
    Error,
}

/// A transient notification routed from any actor (TUI key, CLI/socket command)
/// into the live TUI so the user sees external actions immediately.
#[derive(Clone, Debug)]
pub struct ToastEvent {
    /// Origin label shown in the toast, e.g. "tui", "socket".
    pub source: String,
    /// Human-readable message (single line).
    pub message: String,
    pub tone: ToastTone,
}

pub open spec fn esc() -> char {
    '\u{1b}'
}

/// Final byte of a CSI sequence: the low byte of the character (what
/// `c as u8` keeps) lies in `@`..=`~`.
pub open spec fn is_csi_final(c: char) -> bool {
    0x40 <= (c as u32) % 256 <= 0x7E
}

/// Character-set designators after ESC that take one more character.
pub open spec fn is_charset_intro(c: char) -> bool {
    c == '(' || c == ')' || c == '*' || c == '+' || c == '-' || c == '.' || c == '/'
}

/// Index just past the end of a CSI sequence whose parameters start at `j`
/// (past the final character, or the end of the text).
pub open spec fn csi_stop(s: Seq<char>, j: int) -> int
    decreases s.len() - j,
{
    if j >= s.len() {
        s.len() as int
    } else if is_csi_final(s[j]) {
        j + 1
    } else {
        csi_stop(s, j + 1)
    }
}

/// Index just past the end of an OSC sequence whose payload starts at `j`:
/// past a BEL, past an ESC `\` terminator, or the end of the text.
pub open spec fn osc_stop(s: Seq<char>, j: int) -> int
    decreases s.len() - j,
{
    if j >= s.len() {
        s.len() as int
    } else if s[j] == '\u{7}' {
        j + 1
    } else if s[j] == esc() && j + 1 < s.len() && s[j + 1] == '\\' {
        j + 2
    } else {
        osc_stop(s, j + 1)
    }
}

/// Where the text resumes after the escape sequence starting at `i`
/// (`s[i]` is ESC).
pub open spec fn escape_stop(s: Seq<char>, i: int) -> int {
    if i + 1 >= s.len() {
        s.len() as int
    } else if s[i + 1] == '[' {
        csi_stop(s, i + 2)
    } else if s[i + 1] == ']' {
        osc_stop(s, i + 2)
    } else if is_charset_intro(s[i + 1]) {
        if i + 3 <= s.len() {
            i + 3
        } else {
            s.len() as int
        }
    } else {
        i + 2
    }
}

/// The text from index `i` on with every escape sequence removed.
pub open spec fn stripped_from(s: Seq<char>, i: int) -> Seq<char>
    decreases s.len() - i,
{
    if i < 0 || i >= s.len() {
        Seq::<char>::empty()
    } else if s[i] != esc() {
        seq![s[i]] + stripped_from(s, i + 1)
    } else {
        let k = escape_stop(s, i);
        if i < k <= s.len() {
            stripped_from(s, k)
        } else {
            Seq::<char>::empty()
        }
    }
}

/// What `strip_ansi` returns.
pub open spec fn stripped(s: Seq<char>) -> Seq<char> {
    stripped_from(s, 0)
}

proof fn lemma_csi_stop(s: Seq<char>, j: int)
    requires
        0 <= j,
    ensures
        j <= csi_stop(s, j) <= s.len() || (j > s.len() && csi_stop(s, j) == s.len()),
        j <= s.len() ==> j <= csi_stop(s, j) <= s.len(),
    decreases s.len() - j,
{
    if j < s.len() && !is_csi_final(s[j]) {
        lemma_csi_stop(s, j + 1);
    }
}

proof fn lemma_osc_stop(s: Seq<char>, j: int)
    requires
        0 <= j,
    ensures
        j <= s.len() ==> j <= osc_stop(s, j) <= s.len(),
    decreases s.len() - j,
{
    if j < s.len() && s[j] != '\u{7}' && !(s[j] == esc() && j + 1 < s.len() && s[j + 1] == '\\') {
        lemma_osc_stop(s, j + 1);
    }
}

proof fn lemma_escape_stop(s: Seq<char>, i: int)
    requires
        0 <= i < s.len(),
    ensures
        i < escape_stop(s, i) <= s.len(),
{
    if i + 1 < s.len() {
        if s[i + 1] == '[' {
            lemma_csi_stop(s, i + 2);
        } else if s[i + 1] == ']' {
            lemma_osc_stop(s, i + 2);
        }
    }
}

fn low_byte_is_final(c: char) -> (b: bool)
    ensures
        b == is_csi_final(c),
{
    let v = (c as u32) % 256;
    0x40 <= v && v <= 0x7E
}

fn skip_escape(s: &[char], i: usize) -> (k: usize)
    requires
        i < s@.len(),
        s@[i as int] == esc(),
    ensures
        k == escape_stop(s@, i as int),
{
    let n = s.len();
    if i + 1 >= n {
        return n;
    }
    let c = s[i + 1];
    if c == '[' {
        let mut j = i + 2;
        while j < n
            invariant
                n == s@.len(),
                i + 2 <= j <= n,
                s@[i + 1] == '[',
                escape_stop(s@, i as int) == csi_stop(s@, i + 2),
                csi_stop(s@, i + 2) == csi_stop(s@, j as int),
            decreases n - j,
        {
            if low_byte_is_final(s[j]) {
                return j + 1;
            }
            j = j + 1;
        }
        n
    } else if c == ']' {
        let mut j = i + 2;
        while j < n
            invariant
                n == s@.len(),
                i + 2 <= j <= n,
                escape_stop(s@, i as int) == osc_stop(s@, i + 2),
                osc_stop(s@, i + 2) == osc_stop(s@, j as int),
            decreases n - j,
        {
            if s[j] == '\u{7}' {
                return j + 1;
            }
            if s[j] == '\u{1b}' && j + 1 < n && s[j + 1] == '\\' {
                return j + 2;
            }
            j = j + 1;
        }
        n
    } else if c == '(' || c == ')' || c == '*' || c == '+' || c == '-' || c == '.' || c == '/' {
        if n - i >= 3 {
            i + 3
        } else {
            n
        }
    } else {
        i + 2
    }
}

/// Removes ANSI escape sequences (CSI, OSC, character-set designations and
/// other two-character escapes) from `input`.
pub fn strip_ansi(input: &str) -> (res: String)
    ensures
        res@ == stripped(input@),
{
    let s = chars_of(input);
    let s = s.as_slice();
    let n = s.len();
    let mut out: Vec<char> = Vec::new();
    let mut i: usize = 0;
    while i < n
        invariant
            n == s@.len(),
            i <= n,
            out@ + stripped_from(s@, i as int) == stripped(s@),
        decreases n - i,
    {
        let c = s[i];
        if c != '\u{1b}' {
            out.push(c);
            proof {
                assert(stripped_from(s@, i as int) == seq![c] + stripped_from(s@, i + 1));
                assert(out@ + stripped_from(s@, i + 1) =~= old_out(out@) + (seq![c]
                    + stripped_from(s@, i + 1)));
            }
            i = i + 1;
        } else {
            let k = skip_escape(s, i);
            proof {
                lemma_escape_stop(s@, i as int);
            }
            i = k;
        }
    }
    proof {
        assert(stripped_from(s@, n as int) == Seq::<char>::empty());
        assert(out@ + Seq::<char>::empty() =~= out@);
    }
    string_of(out.as_slice())
}

spec fn old_out(v: Seq<char>) -> Seq<char> {
    v.drop_last()
}

proof fn lemma_stripped_no_esc(s: Seq<char>, i: int)
    requires
        0 <= i,
    ensures
        forall|k: int| 0 <= k < stripped_from(s, i).len() ==> #[trigger] stripped_from(s, i)[k] != esc(),
    decreases s.len() - i,
{
    if i < s.len() {
        if s[i] != esc() {
            lemma_stripped_no_esc(s, i + 1);
            let r = stripped_from(s, i + 1);
            assert forall|k: int| 0 <= k < stripped_from(s, i).len() implies #[trigger] stripped_from(s, i)[k] != esc() by {
                if k > 0 {
                    assert(stripped_from(s, i)[k] == r[k - 1]);
                }
            }
        } else {
            lemma_escape_stop(s, i);
            lemma_stripped_no_esc(s, escape_stop(s, i));
            assert(stripped_from(s, i) == stripped_from(s, escape_stop(s, i)));
        }
    }
}

proof fn lemma_stripped_plain(s: Seq<char>, i: int)
    requires
        0 <= i <= s.len(),
        forall|k: int| 0 <= k < s.len() ==> #[trigger] s[k] != esc(),
    ensures
        stripped_from(s, i) == s.subrange(i, s.len() as int),
    decreases s.len() - i,
{
    if i < s.len() {
        lemma_stripped_plain(s, i + 1);
        assert(seq![s[i]] + s.subrange(i + 1, s.len() as int) =~= s.subrange(i, s.len() as int));
    } else {
        assert(s.subrange(i, s.len() as int) =~= Seq::<char>::empty());
    }
}

/// The output of `strip_ansi` holds no ESC character.
pub proof fn law_strip_ansi_leaves_no_escape(s: Seq<char>)
    ensures
        forall|k: int| 0 <= k < stripped(s).len() ==> #[trigger] stripped(s)[k] != esc(),
{
    lemma_stripped_no_esc(s, 0);
}

/// Text without escape sequences passes through `strip_ansi` unchanged.
pub proof fn law_strip_ansi_keeps_plain_text(s: Seq<char>)
    requires
        forall|k: int| 0 <= k < s.len() ==> #[trigger] s[k] != esc(),
    ensures
        stripped(s) == s,
{
    lemma_stripped_plain(s, 0);
    assert(s.subrange(0, s.len() as int) =~= s);
}

proof fn lemma_csi_stop_shift(w: Seq<char>, m: int, j: int)
    requires
        0 <= m <= w.len(),
        0 <= j,
    ensures
        csi_stop(w, m + j) == m + csi_stop(w.skip(m), j),
    decreases w.len() - (m + j),
{
    let t = w.skip(m);
    if m + j < w.len() {
        assert(w[m + j] == t[j]);
        if !is_csi_final(t[j]) {
            lemma_csi_stop_shift(w, m, j + 1);
        }
    }
}

proof fn lemma_osc_stop_shift(w: Seq<char>, m: int, j: int)
    requires
        0 <= m <= w.len(),
        0 <= j,
    ensures
        osc_stop(w, m + j) == m + osc_stop(w.skip(m), j),
    decreases w.len() - (m + j),
{
    let t = w.skip(m);
    if m + j < w.len() {
        assert(w[m + j] == t[j]);
        if m + j + 1 < w.len() {
            assert(w[m + j + 1] == t[j + 1]);
        }
        if !(t[j] == '\u{7}') && !(t[j] == esc() && j + 1 < t.len() && t[j + 1] == '\\') {
            lemma_osc_stop_shift(w, m, j + 1);
        }
    }
}

/// Stripping from a position only depends on the text from there on.
proof fn lemma_stripped_shift(w: Seq<char>, m: int, i: int)
    requires
        0 <= m <= w.len(),
        0 <= i,
    ensures
        stripped_from(w, m + i) == stripped_from(w.skip(m), i),
    decreases w.len() - (m + i),
{
    let t = w.skip(m);
    if m + i < w.len() {
        assert(w[m + i] == t[i]);
        if t[i] != esc() {
            lemma_stripped_shift(w, m, i + 1);
        } else {
            if m + i + 1 < w.len() {
                assert(w[m + i + 1] == t[i + 1]);
                if t[i + 1] == '[' {
                    lemma_csi_stop_shift(w, m, i + 2);
                } else if t[i + 1] == ']' {
                    lemma_osc_stop_shift(w, m, i + 2);
                }
            }
            assert(escape_stop(w, m + i) == m + escape_stop(t, i));
            let k = escape_stop(t, i);
            if i < k <= t.len() {
                lemma_stripped_shift(w, m, k);
            }
        }
    }
}

proof fn lemma_csi_params(params: Seq<char>, fin: char, s: Seq<char>, j: int)
    requires
        forall|k: int| 0 <= k < params.len() ==> 0x30 <= (#[trigger] params[k] as u32) <= 0x3F,
        '@' <= fin <= '~',
        0 <= j <= params.len(),
    ensures
        csi_stop(seq![esc(), '['] + params + seq![fin] + s, 2 + j) == 3 + params.len(),
    decreases params.len() - j,
{
    let w = seq![esc(), '['] + params + seq![fin] + s;
    if j == params.len() {
        assert(w[2 + j] == fin);
    } else {
        assert(w[2 + j] == params[j]);
        lemma_csi_params(params, fin, s, j + 1);
    }
}

/// A CSI sequence (ESC, `[`, parameter characters in `0`..=`?` such as
/// digits and `;`, and one final character in `@`..=`~`) is removed whole:
/// stripping it and the text after it gives the stripped text after it.
pub proof fn law_csi_sequence_removed_whole(params: Seq<char>, fin: char, s: Seq<char>)
    requires
        forall|j: int| 0 <= j < params.len() ==> 0x30 <= (#[trigger] params[j] as u32) <= 0x3F,
        '@' <= fin <= '~',
    ensures
        stripped(seq![esc(), '['] + params + seq![fin] + s) == stripped(s),
{
    let w = seq![esc(), '['] + params + seq![fin] + s;
    let n = params.len() as int;
    assert(w[0] == esc());
    assert(w[1] == '[');
    assert(w[2 + n] == fin);
    assert(is_csi_final(fin));
    lemma_csi_params(params, fin, s, 0);
    assert(escape_stop(w, 0) == 3 + n);
    lemma_stripped_shift(w, 3 + n, 0);
    assert(w.skip(3 + n) =~= s);
}

/// Stripping twice is stripping once.
pub proof fn law_strip_ansi_idempotent(s: Seq<char>)
    ensures
        stripped(stripped(s)) == stripped(s),
{
    law_strip_ansi_leaves_no_escape(s);
    law_strip_ansi_keeps_plain_text(stripped(s));
}

} // verus!
