//! Character-level helpers shared by the parsers of this crate: whitespace
//! trimming and splitting, ASCII case folding, decimal numbers.
use vstd::prelude::*;

verus! {

/// Appends one character to a `String` (`String::push`).
#[verifier::external_body]
pub(crate) fn push_char(s: &mut String, c: char)
    ensures
        final(s)@ == old(s)@.push(c),
{
    s.push(c);
}

/// The characters of `s`, in order.
pub fn chars_of(s: &str) -> (res: Vec<char>)
    ensures
        res@ == s@,
{
    let mut res: Vec<char> = Vec::new();
    for c in it: s.chars()
        invariant
            res@ == it.seq().take(it.index() as int),
    {
        res.push(c);
    }
    res
}

/// Builds a `String` from characters.
pub fn string_of(cs: &[char]) -> (res: String)
    ensures
        res@ == cs@,
{
    let mut res = String::new();
    let mut i: usize = 0;
    while i < cs.len()
        invariant
            i <= cs@.len(),
            res@ == cs@.take(i as int),
        decreases cs@.len() - i,
    {
        push_char(&mut res, cs[i]);
        assert(cs@.take(i as int).push(cs@[i as int]) =~= cs@.take(i + 1));
        i = i + 1;
    }
    assert(cs@.take(cs@.len() as int) =~= cs@);
    res
}

/// Copy of a string's characters as a new `String`.
pub fn copy_str(s: &str) -> (res: String)
    ensures
        res@ == s@,
{
    let cs = chars_of(s);
    string_of(cs.as_slice())
}

// ── whitespace ────────────────────────────────────────────────────────────

/// Unicode `White_Space`, the property `char::is_whitespace` tests.
pub open spec fn is_ws(c: char) -> bool {
    ||| ('\u{9}' <= c && c <= '\u{d}')
    ||| c == ' '
    ||| c == '\u{85}'
    ||| c == '\u{a0}'
    ||| c == '\u{1680}'
    ||| ('\u{2000}' <= c && c <= '\u{200a}')
    ||| c == '\u{2028}'
    ||| c == '\u{2029}'
    ||| c == '\u{202f}'
    ||| c == '\u{205f}'
    ||| c == '\u{3000}'
}

pub fn is_whitespace(c: char) -> (b: bool)
    ensures
        b == is_ws(c),
{
    ('\u{9}' <= c && c <= '\u{d}') || c == ' ' || c == '\u{85}' || c == '\u{a0}' || c
        == '\u{1680}' || ('\u{2000}' <= c && c <= '\u{200a}') || c == '\u{2028}' || c
        == '\u{2029}' || c == '\u{202f}' || c == '\u{205f}' || c == '\u{3000}'
}

/// `s` without its leading whitespace.
pub open spec fn trim_start(s: Seq<char>) -> Seq<char>
    decreases s.len(),
{
    if s.len() > 0 && is_ws(s[0]) {
        trim_start(s.drop_first())
    } else {
        s
    }
}

/// `s` without its trailing whitespace.
pub open spec fn trim_end(s: Seq<char>) -> Seq<char>
    decreases s.len(),
{
    if s.len() > 0 && is_ws(s.last()) {
        trim_end(s.drop_last())
    } else {
        s
    }
}

/// `str::trim`: both ends stripped of whitespace.
pub open spec fn trim(s: Seq<char>) -> Seq<char> {
    trim_end(trim_start(s))
}

proof fn lemma_trim_start_skip(s: Seq<char>, i: int)
    requires
        0 <= i <= s.len(),
        forall|k: int| 0 <= k < i ==> is_ws(#[trigger] s[k]),
    ensures
        trim_start(s) == trim_start(s.subrange(i, s.len() as int)),
    decreases i,
{
    if i > 0 {
        assert(s.drop_first().subrange(i - 1, s.drop_first().len() as int) =~= s.subrange(
            i,
            s.len() as int,
        ));
        lemma_trim_start_skip(s.drop_first(), i - 1);
    } else {
        assert(s.subrange(0, s.len() as int) =~= s);
    }
}

pub proof fn lemma_trim_end_skip(s: Seq<char>, j: int)
    requires
        0 <= j <= s.len(),
        forall|k: int| j <= k < s.len() ==> is_ws(#[trigger] s[k]),
    ensures
        trim_end(s) == trim_end(s.subrange(0, j)),
    decreases s.len() - j,
{
    if j < s.len() {
        assert(s.drop_last().subrange(0, j) =~= s.subrange(0, j));
        lemma_trim_end_skip(s.drop_last(), j);
    } else {
        assert(s.subrange(0, j) =~= s);
    }
}

/// Bounds of the trimmed part: `trim(s) == s[start..end]`.
pub fn trim_bounds(s: &[char]) -> (r: (usize, usize))
    ensures
        r.0 <= r.1 <= s@.len(),
        trim(s@) == s@.subrange(r.0 as int, r.1 as int),
{
    let mut i: usize = 0;
    while i < s.len() && is_whitespace(s[i])
        invariant
            i <= s@.len(),
            forall|k: int| 0 <= k < i ==> is_ws(#[trigger] s@[k]),
        decreases s@.len() - i,
    {
        i = i + 1;
    }
    proof {
        lemma_trim_start_skip(s@, i as int);
    }
    let ghost t = s@.subrange(i as int, s@.len() as int);
    assert(trim_start(s@) == t);
    assert(t.len() == 0 || !is_ws(t[0]));
    let mut j: usize = s.len();
    while j > i && is_whitespace(s[j - 1])
        invariant
            i <= j <= s@.len(),
            forall|k: int| j <= k < s@.len() ==> is_ws(#[trigger] s@[k]),
        decreases j,
    {
        j = j - 1;
    }
    proof {
        let tl = t.len() as int;
        let jj = j - i;
        assert forall|k: int| jj <= k < tl implies is_ws(#[trigger] t[k]) by {
            assert(t[k] == s@[k + i]);
        }
        lemma_trim_end_skip(t, jj);
        assert(t.subrange(0, jj) =~= s@.subrange(i as int, j as int));
        if jj > 0 {
            assert(!is_ws(t.subrange(0, jj).last()) || j == i);
            if j > i {
                assert(!is_ws(s@[j - 1]));
            }
        } else {
            assert(t.subrange(0, 0).len() == 0);
        }
        // trim_end of the window is the window itself
        let w = t.subrange(0, jj);
        if w.len() > 0 {
            assert(w.last() == s@[j - 1]);
        }
    }
    (i, j)
}

/// `str::trim` on characters.
pub fn trim_chars(s: &[char]) -> (res: Vec<char>)
    ensures
        res@ == trim(s@),
{
    let (a, b) = trim_bounds(s);
    slice_vec(s, a, b)
}

/// `s[a..b]` as a vector.
pub fn slice_vec(s: &[char], a: usize, b: usize) -> (res: Vec<char>)
    requires
        a <= b <= s@.len(),
    ensures
        res@ == s@.subrange(a as int, b as int),
{
    let mut res: Vec<char> = Vec::new();
    let mut k = a;
    while k < b
        invariant
            a <= k <= b <= s@.len(),
            res@ == s@.subrange(a as int, k as int),
        decreases b - k,
    {
        res.push(s[k]);
        assert(s@.subrange(a as int, k as int).push(s@[k as int]) =~= s@.subrange(
            a as int,
            k + 1,
        ));
        k = k + 1;
    }
    res
}

// ── ASCII case ─────────────────────────────────────────────────────────────

pub open spec fn ascii_lower(c: char) -> char {
    if 'A' <= c && c <= 'Z' {
        ((c as u32) + 32) as char
    } else {
        c
    }
}

pub open spec fn ascii_lower_seq(s: Seq<char>) -> Seq<char> {
    s.map_values(|c: char| ascii_lower(c))
}

pub fn to_ascii_lower(c: char) -> (r: char)
    ensures
        r == ascii_lower(c),
{
    if 'A' <= c && c <= 'Z' {
        let v: u8 = (c as u8) + 32;
        v as char
    } else {
        c
    }
}

pub fn ascii_lower_vec(s: &[char]) -> (res: Vec<char>)
    ensures
        res@ == ascii_lower_seq(s@),
{
    let mut res: Vec<char> = Vec::new();
    let mut i: usize = 0;
    while i < s.len()
        invariant
            i <= s@.len(),
            res@ == ascii_lower_seq(s@.take(i as int)),
        decreases s@.len() - i,
    {
        res.push(to_ascii_lower(s[i]));
        assert(ascii_lower_seq(s@.take(i as int)).push(ascii_lower(s@[i as int]))
            =~= ascii_lower_seq(s@.take(i + 1)));
        i = i + 1;
    }
    assert(s@.take(s@.len() as int) =~= s@);
    res
}

// ── comparisons ────────────────────────────────────────────────────────────

pub fn seq_eq(a: &[char], b: &[char]) -> (r: bool)
    ensures
        r == (a@ == b@),
{
    if a.len() != b.len() {
        return false;
    }
    let mut i: usize = 0;
    while i < a.len()
        invariant
            a@.len() == b@.len(),
            i <= a@.len(),
            forall|k: int| 0 <= k < i ==> a@[k] == b@[k],
        decreases a@.len() - i,
    {
        if a[i] != b[i] {
            return false;
        }
        i = i + 1;
    }
    assert(a@ =~= b@);
    true
}

/// Whether `s` equals the literal `lit`.
pub fn eq_str(s: &[char], lit: &str) -> (r: bool)
    ensures
        r == (s@ == lit@),
{
    let l = chars_of(lit);
    seq_eq(s, l.as_slice())
}

pub open spec fn starts_with(s: Seq<char>, p: Seq<char>) -> bool {
    p.len() <= s.len() && s.take(p.len() as int) == p
}

pub open spec fn ends_with(s: Seq<char>, p: Seq<char>) -> bool {
    p.len() <= s.len() && s.skip(s.len() - p.len()) == p
}

pub fn has_prefix(s: &[char], p: &[char]) -> (r: bool)
    ensures
        r == starts_with(s@, p@),
{
    if p.len() > s.len() {
        return false;
    }
    let mut i: usize = 0;
    while i < p.len()
        invariant
            p@.len() <= s@.len(),
            i <= p@.len(),
            forall|k: int| 0 <= k < i ==> s@[k] == p@[k],
        decreases p@.len() - i,
    {
        if s[i] != p[i] {
            assert(s@.take(p@.len() as int)[i as int] != p@[i as int]);
            return false;
        }
        i = i + 1;
    }
    assert(s@.take(p@.len() as int) =~= p@);
    true
}

pub fn has_suffix(s: &[char], p: &[char]) -> (r: bool)
    ensures
        r == ends_with(s@, p@),
{
    if p.len() > s.len() {
        return false;
    }
    let n = s.len();
    let off = n - p.len();
    let mut i: usize = 0;
    while i < p.len()
        invariant
            n == s@.len(),
            p@.len() <= s@.len(),
            off == s@.len() - p@.len(),
            i <= p@.len(),
            forall|k: int| 0 <= k < i ==> s@[off + k] == p@[k],
        decreases p@.len() - i,
    {
        if s[off + i] != p[i] {
            assert(s@.skip(off as int)[i as int] != p@[i as int]);
            return false;
        }
        i = i + 1;
    }
    assert(s@.skip(off as int) =~= p@);
    true
}

pub fn starts_with_str(s: &[char], lit: &str) -> (r: bool)
    ensures
        r == starts_with(s@, lit@),
{
    let l = chars_of(lit);
    has_prefix(s, l.as_slice())
}

pub fn ends_with_str(s: &[char], lit: &str) -> (r: bool)
    ensures
        r == ends_with(s@, lit@),
{
    let l = chars_of(lit);
    has_suffix(s, l.as_slice())
}

/// Whether `p` occurs in `s` as a contiguous run (`str::contains`).
pub open spec fn contains_seq(s: Seq<char>, p: Seq<char>) -> bool {
    exists|i: int| 0 <= i <= s.len() - p.len() && #[trigger] s.subrange(i, i + p.len()) == p
}

pub fn has_infix(s: &[char], p: &[char]) -> (r: bool)
    ensures
        r == contains_seq(s@, p@),
{
    if p.len() > s.len() {
        return false;
    }
    let n = s.len();
    let mut i: usize = 0;
    while i <= n - p.len()
        invariant
            n == s@.len(),
            p@.len() <= s@.len(),
            i <= s@.len() - p@.len() + 1,
            forall|k: int| 0 <= k < i ==> #[trigger] s@.subrange(k, k + p@.len()) != p@,
        decreases s@.len() - p@.len() + 1 - i,
    {
        let mut j: usize = 0;
        let mut ok = true;
        while j < p.len()
            invariant
                n == s@.len(),
                p@.len() <= s@.len(),
                i + p@.len() <= s@.len(),
                j <= p@.len(),
                ok ==> forall|k: int| 0 <= k < j ==> s@[i + k] == p@[k],
                !ok ==> s@.subrange(i as int, i + p@.len()) != p@,
            decreases p@.len() - j,
        {
            if s[i + j] != p[j] {
                assert(s@.subrange(i as int, i + p@.len())[j as int] != p@[j as int]);
                ok = false;
            }
            j = j + 1;
        }
        if ok {
            assert(s@.subrange(i as int, i + p@.len()) =~= p@);
            return true;
        }
        if i == n - p.len() {
            return false;
        }
        i = i + 1;
    }
    false
}

pub fn contains_str(s: &[char], lit: &str) -> (r: bool)
    ensures
        r == contains_seq(s@, lit@),
{
    let l = chars_of(lit);
    has_infix(s, l.as_slice())
}

// ── splitting ──────────────────────────────────────────────────────────────

/// The views of a vector of character vectors.
pub open spec fn views(v: Seq<Vec<char>>) -> Seq<Seq<char>> {
    v.map_values(|x: Vec<char>| x@)
}

/// `str::split(sep)`: the pieces between separators, empty pieces included.
pub open spec fn split_on(s: Seq<char>, sep: char) -> Seq<Seq<char>>
    decreases s.len(),
{
    if s.len() == 0 {
        seq![Seq::<char>::empty()]
    } else {
        let p = split_on(s.drop_last(), sep);
        if s.last() == sep {
            p.push(Seq::<char>::empty())
        } else {
            p.update(p.len() - 1, p.last().push(s.last()))
        }
    }
}

pub proof fn lemma_split_on_nonempty(s: Seq<char>, sep: char)
    ensures
        split_on(s, sep).len() >= 1,
    decreases s.len(),
{
    if s.len() > 0 {
        lemma_split_on_nonempty(s.drop_last(), sep);
    }
}

/// Splits on every occurrence of `sep` (`str::split`).
pub fn split_chars(s: &[char], sep: char) -> (res: Vec<Vec<char>>)
    ensures
        views(res@) == split_on(s@, sep),
{
    let mut parts: Vec<Vec<char>> = Vec::new();
    let mut cur: Vec<char> = Vec::new();
    let mut i: usize = 0;
    proof {
        assert(s@.take(0) =~= Seq::<char>::empty());
    }
    while i < s.len()
        invariant
            i <= s@.len(),
            views(parts@).push(cur@) == split_on(s@.take(i as int), sep),
        decreases s@.len() - i,
    {
        let c = s[i];
        proof {
            assert(s@.take(i + 1).drop_last() =~= s@.take(i as int));
            assert(s@.take(i + 1).last() == c);
        }
        if c == sep {
            let done = cur;
            parts.push(done);
            cur = Vec::new();
            proof {
                assert(views(parts@) =~= views(old_parts(parts@)).push(done@)) by {
                    assert(parts@.drop_last() =~= old_parts(parts@));
                }
                assert(views(parts@).push(cur@) =~= split_on(s@.take(i + 1), sep));
            }
        } else {
            let ghost before = cur@;
            cur.push(c);
            proof {
                let p = split_on(s@.take(i as int), sep);
                assert(p.last() == before);
                assert(views(parts@).push(cur@) =~= p.update(p.len() - 1, p.last().push(c)));
            }
        }
        i = i + 1;
    }
    parts.push(cur);
    proof {
        assert(s@.take(s@.len() as int) =~= s@);
        assert(views(parts@) =~= views(parts@.drop_last()).push(parts@.last()@));
    }
    parts
}

spec fn old_parts(v: Seq<Vec<char>>) -> Seq<Vec<char>> {
    v.drop_last()
}

/// State of a left-to-right scan for whitespace-separated words: the
/// finished words and the word being read.
pub open spec fn words_state(s: Seq<char>) -> (Seq<Seq<char>>, Seq<char>)
    decreases s.len(),
{
    if s.len() == 0 {
        (Seq::<Seq<char>>::empty(), Seq::<char>::empty())
    } else {
        let (d, c) = words_state(s.drop_last());
        if is_ws(s.last()) {
            if c.len() > 0 {
                (d.push(c), Seq::<char>::empty())
            } else {
                (d, Seq::<char>::empty())
            }
        } else {
            (d, c.push(s.last()))
        }
    }
}

/// `str::split_whitespace`: the maximal runs of non-whitespace characters.
pub open spec fn words(s: Seq<char>) -> Seq<Seq<char>> {
    let (d, c) = words_state(s);
    if c.len() > 0 {
        d.push(c)
    } else {
        d
    }
}

pub fn split_words(s: &[char]) -> (res: Vec<Vec<char>>)
    ensures
        views(res@) == words(s@),
{
    let mut parts: Vec<Vec<char>> = Vec::new();
    let mut cur: Vec<char> = Vec::new();
    let mut i: usize = 0;
    proof {
        assert(s@.take(0) =~= Seq::<char>::empty());
    }
    while i < s.len()
        invariant
            i <= s@.len(),
            (views(parts@), cur@) == words_state(s@.take(i as int)),
        decreases s@.len() - i,
    {
        let c = s[i];
        proof {
            assert(s@.take(i + 1).drop_last() =~= s@.take(i as int));
            assert(s@.take(i + 1).last() == c);
        }
        if is_whitespace(c) {
            if cur.len() > 0 {
                let done = cur;
                parts.push(done);
                cur = Vec::new();
                proof {
                    assert(views(parts@) =~= views(parts@.drop_last()).push(done@));
                }
            }
        } else {
            cur.push(c);
        }
        i = i + 1;
    }
    proof {
        assert(s@.take(s@.len() as int) =~= s@);
    }
    if cur.len() > 0 {
        parts.push(cur);
        proof {
            assert(views(parts@) =~= views(parts@.drop_last()).push(parts@.last()@));
        }
    }
    parts
}

/// `s` without the leading run of `c` (`str::trim_start_matches(c)`).
pub open spec fn strip_leading(s: Seq<char>, c: char) -> Seq<char>
    decreases s.len(),
{
    if s.len() > 0 && s[0] == c {
        strip_leading(s.drop_first(), c)
    } else {
        s
    }
}

proof fn lemma_strip_leading_skip(s: Seq<char>, c: char, i: int)
    requires
        0 <= i <= s.len(),
        forall|k: int| 0 <= k < i ==> #[trigger] s[k] == c,
    ensures
        strip_leading(s, c) == strip_leading(s.subrange(i, s.len() as int), c),
    decreases i,
{
    if i > 0 {
        assert(s.drop_first().subrange(i - 1, s.drop_first().len() as int) =~= s.subrange(
            i,
            s.len() as int,
        ));
        lemma_strip_leading_skip(s.drop_first(), c, i - 1);
    } else {
        assert(s.subrange(0, s.len() as int) =~= s);
    }
}

pub fn strip_leading_chars(s: &[char], c: char) -> (res: Vec<char>)
    ensures
        res@ == strip_leading(s@, c),
{
    let mut i: usize = 0;
    while i < s.len() && s[i] == c
        invariant
            i <= s@.len(),
            forall|k: int| 0 <= k < i ==> #[trigger] s@[k] == c,
        decreases s@.len() - i,
    {
        i = i + 1;
    }
    proof {
        lemma_strip_leading_skip(s@, c, i as int);
    }
    slice_vec(s, i, s.len())
}

/// A text without the separator is one piece.
pub proof fn lemma_split_on_no_sep(x: Seq<char>, sep: char)
    requires
        forall|i: int| 0 <= i < x.len() ==> #[trigger] x[i] != sep,
    ensures
        split_on(x, sep) == seq![x],
    decreases x.len(),
{
    if x.len() > 0 {
        lemma_split_on_no_sep(x.drop_last(), sep);
        assert(x.drop_last().push(x.last()) =~= x);
        assert(seq![x.drop_last()].update(0, x.drop_last().push(x.last())) =~= seq![x]);
    } else {
        assert(x =~= Seq::<char>::empty());
    }
}

/// Splitting `a`, a separator, then `b`, gives the pieces of `a` followed by
/// the pieces of `b`.
pub proof fn lemma_split_on_concat(a: Seq<char>, sep: char, b: Seq<char>)
    ensures
        split_on(a + seq![sep] + b, sep) == split_on(a, sep) + split_on(b, sep),
    decreases b.len(),
{
    let s = a + seq![sep] + b;
    lemma_split_on_nonempty(a, sep);
    if b.len() == 0 {
        assert(s.drop_last() =~= a);
        assert(s =~= a + seq![sep]);
        assert(split_on(a, sep).push(Seq::<char>::empty()) =~= split_on(a, sep) + split_on(b, sep));
    } else {
        assert(s.drop_last() =~= a + seq![sep] + b.drop_last());
        lemma_split_on_concat(a, sep, b.drop_last());
        lemma_split_on_nonempty(b.drop_last(), sep);
        let x = split_on(a, sep);
        let y = split_on(b.drop_last(), sep);
        if b.last() == sep {
            assert((x + y).push(Seq::<char>::empty()) =~= x + y.push(Seq::<char>::empty()));
        } else {
            assert((x + y).update((x + y).len() - 1, (x + y).last().push(b.last())) =~= x
                + y.update(y.len() - 1, y.last().push(b.last())));
        }
    }
}

// ── UTF-8 lengths ──────────────────────────────────────────────────────────

/// Bytes in the UTF-8 encoding of `c` (`char::len_utf8`).
pub open spec fn utf8_width(c: char) -> nat {
    if (c as u32) < 0x80 {
        1
    } else if (c as u32) < 0x800 {
        2
    } else if (c as u32) < 0x10000 {
        3
    } else {
        4
    }
}

/// Bytes in the UTF-8 encoding of `s` (`str::len`).
pub open spec fn byte_len(s: Seq<char>) -> nat
    decreases s.len(),
{
    if s.len() == 0 {
        0
    } else {
        byte_len(s.drop_last()) + utf8_width(s.last())
    }
}

pub fn char_width(c: char) -> (w: usize)
    ensures
        w == utf8_width(c),
{
    let v = c as u32;
    if v < 0x80 {
        1
    } else if v < 0x800 {
        2
    } else if v < 0x10000 {
        3
    } else {
        4
    }
}

pub proof fn lemma_byte_len_prefix(s: Seq<char>, i: int)
    requires
        0 <= i <= s.len(),
    ensures
        byte_len(s.take(i)) <= byte_len(s),
    decreases s.len() - i,
{
    if i < s.len() {
        assert(s.drop_last().take(i) =~= s.take(i));
        lemma_byte_len_prefix(s.drop_last(), i);
    } else {
        assert(s.take(i) =~= s);
    }
}

/// Byte length of `s`, given that it fits in a `usize`.
pub fn byte_len_of(s: &[char]) -> (n: usize)
    requires
        byte_len(s@) <= usize::MAX,
    ensures
        n == byte_len(s@),
{
    let mut n: usize = 0;
    let mut i: usize = 0;
    while i < s.len()
        invariant
            i <= s@.len(),
            n == byte_len(s@.take(i as int)),
            byte_len(s@) <= usize::MAX,
        decreases s@.len() - i,
    {
        proof {
            assert(s@.take(i + 1).drop_last() =~= s@.take(i as int));
            lemma_byte_len_prefix(s@, i + 1);
        }
        n = n + char_width(s[i]);
        i = i + 1;
    }
    assert(s@.take(s@.len() as int) =~= s@);
    n
}

/// Whether byte offset `b` falls between characters of `s` (or at its end).
pub open spec fn is_boundary(s: Seq<char>, b: nat) -> bool {
    exists|k: int| 0 <= k <= s.len() && #[trigger] byte_len(s.take(k)) == b
}

/// The character index whose byte offset is `b`, when `b` is a boundary.
pub open spec fn char_index(s: Seq<char>, b: nat) -> int {
    choose|k: int| 0 <= k <= s.len() && #[trigger] byte_len(s.take(k)) == b
}

pub proof fn lemma_byte_len_strict(s: Seq<char>, i: int, j: int)
    requires
        0 <= i < j <= s.len(),
    ensures
        byte_len(s.take(i)) < byte_len(s.take(j)),
    decreases j - i,
{
    assert(s.take(j).drop_last() =~= s.take(j - 1));
    if i < j - 1 {
        lemma_byte_len_strict(s, i, j - 1);
    }
}

/// Character index of the byte offset `b`, or `None` when `b` is not a
/// boundary of `s`.
pub fn char_index_of_byte(s: &[char], b: usize) -> (r: Option<usize>)
    ensures
        r.is_some() == is_boundary(s@, b as nat),
        r matches Some(k) ==> k <= s@.len() && byte_len(s@.take(k as int)) == b && k
            == char_index(s@, b as nat),
{
    let mut k: usize = 0;
    let mut off: usize = 0;
    proof {
        assert(s@.take(0) =~= Seq::<char>::empty());
    }
    while k < s.len() && off < b
        invariant
            k <= s@.len(),
            off == byte_len(s@.take(k as int)),
            off <= b || k == 0,
            forall|j: int| 0 <= j < k ==> byte_len(#[trigger] s@.take(j)) < b,
        decreases s@.len() - k,
    {
        proof {
            assert(s@.take(k + 1).drop_last() =~= s@.take(k as int));
        }
        let w = char_width(s[k]);
        if b - off < w {
            // the next boundary is beyond `b`
            proof {
                assert forall|j: int| 0 <= j <= s@.len() implies #[trigger] byte_len(s@.take(j))
                    != b by {
                    if j > k + 1 {
                        lemma_byte_len_strict(s@, k + 1, j);
                    }
                }
            }
            return None;
        }
        off = off + w;
        k = k + 1;
    }
    if off == b {
        proof {
            assert(is_boundary(s@, b as nat));
            let c = char_index(s@, b as nat);
            if c != k as int {
                if c < k {
                    lemma_byte_len_strict(s@, c, k as int);
                } else {
                    lemma_byte_len_strict(s@, k as int, c);
                }
            }
        }
        Some(k)
    } else {
        proof {
            assert forall|j: int| 0 <= j <= s@.len() implies #[trigger] byte_len(s@.take(j)) != b by {
                if j > k {
                    lemma_byte_len_strict(s@, k as int, j);
                }
            }
        }
        None
    }
}

// ── lines ──────────────────────────────────────────────────────────────────

/// A line as `str::lines` yields it: one trailing `\r` dropped.
pub open spec fn strip_cr(s: Seq<char>) -> Seq<char> {
    if s.len() > 0 && s.last() == '\r' {
        s.drop_last()
    } else {
        s
    }
}

/// `str::lines`: split at `\n` (and `\r\n`); a final empty piece after the
/// last line ending is not a line.
pub open spec fn lines_of(s: Seq<char>) -> Seq<Seq<char>> {
    let p = split_on(s, '\n');
    let body = Seq::new((p.len() - 1) as nat, |i: int| strip_cr(p[i]));
    if p.last().len() > 0 {
        body.push(p.last())
    } else {
        body
    }
}

pub fn strip_cr_vec(s: Vec<char>) -> (res: Vec<char>)
    ensures
        res@ == strip_cr(s@),
{
    let mut s = s;
    if s.len() > 0 && s[s.len() - 1] == '\r' {
        s.pop();
    }
    s
}

/// `str::lines` on characters.
pub fn lines_chars(s: &[char]) -> (res: Vec<Vec<char>>)
    ensures
        views(res@) == lines_of(s@),
{
    let parts = split_chars(s, '\n');
    proof {
        lemma_split_on_nonempty(s@, '\n');
    }
    let ghost p = split_on(s@, '\n');
    let n = parts.len();
    assert(views(parts@).len() == n);
    let mut res: Vec<Vec<char>> = Vec::new();
    let mut i: usize = 0;
    while i + 1 < n
        invariant
            n == parts@.len(),
            n >= 1,
            views(parts@) == p,
            i + 1 <= n,
            views(res@) == Seq::new(i as nat, |j: int| strip_cr(p[j])),
        decreases n - i,
    {
        let piece = parts[i].clone();
        assert(piece@ == p[i as int]);
        let l = strip_cr_vec(piece);
        let ghost before = res@;
        let ghost lv = l@;
        res.push(l);
        assert(views(res@) =~= views(before).push(lv));
        assert(views(res@) =~= Seq::new((i + 1) as nat, |j: int| strip_cr(p[j])));
        i = i + 1;
    }
    let last = parts[n - 1].clone();
    assert(last@ == p.last());
    if last.len() > 0 {
        res.push(last);
        assert(views(res@) =~= Seq::new((n - 1) as nat, |j: int| strip_cr(p[j])).push(p.last()));
    }
    res
}

proof fn lemma_byte_len_front(s: Seq<char>)
    requires
        s.len() > 0,
    ensures
        byte_len(s) == utf8_width(s[0]) + byte_len(s.drop_first()),
    decreases s.len(),
{
    if s.len() > 1 {
        lemma_byte_len_front(s.drop_last());
        assert(s.drop_last().drop_first() =~= s.drop_first().drop_last());
        assert(s.drop_first().last() == s.last());
    } else {
        assert(s.drop_last() =~= Seq::<char>::empty());
        assert(s.drop_first() =~= Seq::<char>::empty());
        assert(byte_len(Seq::<char>::empty()) == 0);
    }
}

proof fn lemma_encode_len(s: Seq<char>)
    ensures
        vstd::utf8::encode_utf8(s).len() == byte_len(s),
    decreases s.len(),
{
    if s.len() > 0 {
        lemma_encode_len(s.drop_first());
        lemma_byte_len_front(s);
        let v = s[0] as u32;
        vstd::utf8::char_is_scalar(s[0]);
        assert(vstd::utf8::encode_scalar(v).len() == utf8_width(s[0]));
    } else {
        assert(byte_len(s) == 0);
    }
}

/// Byte length of a string (`str::len`).
pub fn str_byte_len(s: &str) -> (n: usize)
    ensures
        n == byte_len(s@),
{
    proof {
        lemma_encode_len(s@);
    }
    let b = s.as_bytes();
    b.len()
}

/// The characters of `s` whose UTF-8 byte offset lies in `[a, b)`.
pub open spec fn chars_between(s: Seq<char>, a: nat, b: nat) -> Seq<char>
    decreases s.len(),
{
    if s.len() == 0 {
        Seq::<char>::empty()
    } else {
        let o = byte_len(s.drop_last());
        chars_between(s.drop_last(), a, b) + if a <= o < b {
            seq![s.last()]
        } else {
            Seq::<char>::empty()
        }
    }
}

pub fn chars_between_exec(s: &[char], a: usize, b: usize) -> (r: Vec<char>)
    requires
        byte_len(s@) <= usize::MAX,
    ensures
        r@ == chars_between(s@, a as nat, b as nat),
{
    let mut out: Vec<char> = Vec::new();
    let mut off: usize = 0;
    let mut i: usize = 0;
    proof {
        assert(s@.take(0) =~= Seq::<char>::empty());
    }
    while i < s.len()
        invariant
            i <= s@.len(),
            byte_len(s@) <= usize::MAX,
            off == byte_len(s@.take(i as int)),
            out@ == chars_between(s@.take(i as int), a as nat, b as nat),
        decreases s@.len() - i,
    {
        proof {
            assert(s@.take(i + 1).drop_last() =~= s@.take(i as int));
            lemma_byte_len_prefix(s@, i + 1);
        }
        if a <= off && off < b {
            out.push(s[i]);
        }
        off = off + char_width(s[i]);
        i = i + 1;
    }
    assert(s@.take(s@.len() as int) =~= s@);
    out
}

// ── ordering ───────────────────────────────────────────────────────────────

/// Lexicographic order by character (the order of `String`'s `Ord`).
pub open spec fn seq_less(a: Seq<char>, b: Seq<char>) -> bool
    decreases a.len(),
{
    if a.len() == 0 {
        b.len() > 0
    } else if b.len() == 0 {
        false
    } else if a[0] != b[0] {
        (a[0] as u32) < (b[0] as u32)
    } else {
        seq_less(a.drop_first(), b.drop_first())
    }
}

pub proof fn lemma_seq_less_irreflexive(a: Seq<char>)
    ensures
        !seq_less(a, a),
    decreases a.len(),
{
    if a.len() > 0 {
        lemma_seq_less_irreflexive(a.drop_first());
    }
}

pub proof fn lemma_seq_less_transitive(a: Seq<char>, b: Seq<char>, c: Seq<char>)
    requires
        seq_less(a, b),
        seq_less(b, c),
    ensures
        seq_less(a, c),
    decreases a.len(),
{
    if a.len() > 0 && b.len() > 0 && c.len() > 0 {
        if a[0] == b[0] && b[0] == c[0] {
            lemma_seq_less_transitive(a.drop_first(), b.drop_first(), c.drop_first());
        }
    }
}

pub proof fn lemma_seq_less_total(a: Seq<char>, b: Seq<char>)
    ensures
        seq_less(a, b) || seq_less(b, a) || a == b,
    decreases a.len(),
{
    if a.len() > 0 && b.len() > 0 {
        if a[0] == b[0] {
            lemma_seq_less_total(a.drop_first(), b.drop_first());
            if a.drop_first() == b.drop_first() {
                assert(a =~= seq![a[0]] + a.drop_first());
                assert(b =~= seq![b[0]] + b.drop_first());
            }
        } else {
            assert((a[0] as u32) != (b[0] as u32)) by {
                vstd::utf8::char_u32_cast(a[0], a[0] as u32);
                vstd::utf8::char_u32_cast(b[0], b[0] as u32);
            }
        }
    } else if a.len() == 0 && b.len() == 0 {
        assert(a =~= b);
    }
}

pub proof fn lemma_seq_less_asym(a: Seq<char>, b: Seq<char>)
    requires
        seq_less(a, b),
    ensures
        !seq_less(b, a),
        a != b,
{
    lemma_seq_less_irreflexive(a);
    if seq_less(b, a) {
        lemma_seq_less_transitive(a, b, a);
    }
}

/// `a < b` in the order of `String`.
pub fn less_chars(a: &[char], b: &[char]) -> (r: bool)
    ensures
        r == seq_less(a@, b@),
{
    let mut i: usize = 0;
    assert(a@.skip(0) =~= a@);
    assert(b@.skip(0) =~= b@);
    while i < a.len() && i < b.len() && a[i] == b[i]
        invariant
            i <= a@.len(),
            i <= b@.len(),
            seq_less(a@, b@) == seq_less(a@.skip(i as int), b@.skip(i as int)),
        decreases a@.len() - i,
    {
        assert(a@.skip(i as int).drop_first() =~= a@.skip(i + 1));
        assert(b@.skip(i as int).drop_first() =~= b@.skip(i + 1));
        i = i + 1;
    }
    if i == a.len() {
        i < b.len()
    } else if i == b.len() {
        false
    } else {
        (a[i] as u32) < (b[i] as u32)
    }
}

/// Append the characters of `s` to `out`.
pub fn append_chars(out: &mut Vec<char>, s: &[char])
    ensures
        final(out)@ == old(out)@ + s@,
{
    let mut j: usize = 0;
    let ghost base = out@;
    while j < s.len()
        invariant
            j <= s@.len(),
            out@ == base + s@.take(j as int),
        decreases s@.len() - j,
    {
        out.push(s[j]);
        assert(s@.take(j + 1) =~= s@.take(j as int).push(s@[j as int]));
        j = j + 1;
    }
    assert(s@.take(s@.len() as int) =~= s@);
}

/// `lines` joined with `\n` between them (`[String]::join("\n")`).
pub open spec fn joined(lines: Seq<Seq<char>>) -> Seq<char>
    decreases lines.len(),
{
    if lines.len() == 0 {
        Seq::<char>::empty()
    } else if lines.len() == 1 {
        lines[0]
    } else {
        joined(lines.drop_last()) + seq!['\n'] + lines.last()
    }
}

/// Appending a character to the last line appends it to the joined text.
proof fn lemma_joined_push_last(p: Seq<Seq<char>>, c: char)
    requires
        p.len() >= 1,
    ensures
        joined(p.update(p.len() - 1, p.last().push(c))) == joined(p).push(c),
{
    let q = p.update(p.len() - 1, p.last().push(c));
    if p.len() > 1 {
        assert(q.drop_last() =~= p.drop_last());
        assert(joined(q) =~= joined(p).push(c));
    }
}

/// Splitting at `\n` and joining with `\n` gives the text back.
pub proof fn lemma_joined_split(s: Seq<char>)
    ensures
        joined(split_on(s, '\n')) == s,
    decreases s.len(),
{
    if s.len() > 0 {
        let p = split_on(s.drop_last(), '\n');
        lemma_joined_split(s.drop_last());
        lemma_split_on_nonempty(s.drop_last(), '\n');
        if s.last() == '\n' {
            assert(p.push(Seq::<char>::empty()).drop_last() =~= p);
            assert(joined(p.push(Seq::<char>::empty())) =~= s);
        } else {
            lemma_joined_push_last(p, s.last());
            assert(s.drop_last().push(s.last()) =~= s);
        }
    }
}

/// The pieces of a text without `c` hold no `c`.
pub proof fn lemma_split_on_pieces_free(s: Seq<char>, sep: char, c: char)
    requires
        !s.contains(c),
    ensures
        forall|i: int, j: int|
            0 <= i < split_on(s, sep).len() && 0 <= j < split_on(s, sep)[i].len() ==> split_on(s, sep)[i][j]
                != c,
    decreases s.len(),
{
    if s.len() > 0 {
        let r = s.drop_last();
        assert(!r.contains(c)) by {
            if r.contains(c) {
                let k = choose|k: int| 0 <= k < r.len() && r[k] == c;
                assert(s[k] == c);
            }
        }
        lemma_split_on_pieces_free(r, sep, c);
        lemma_split_on_nonempty(r, sep);
        assert(s[s.len() - 1] != c);
    }
}

/// A text that does not end in a line break nor hold `\r` is its lines,
/// split at `\n`.
pub proof fn lemma_lines_of_plain(s: Seq<char>)
    requires
        !s.contains('\r'),
        s.len() > 0,
        s.last() != '\n',
    ensures
        lines_of(s) == split_on(s, '\n'),
{
    let p = split_on(s, '\n');
    lemma_split_on_nonempty(s.drop_last(), '\n');
    lemma_split_on_pieces_free(s, '\n', '\r');
    assert(p.last().len() > 0);
    let body = Seq::new((p.len() - 1) as nat, |i: int| strip_cr(p[i]));
    assert forall|i: int| 0 <= i < p.len() - 1 implies body[i] == p[i] by {
        if p[i].len() > 0 {
            assert(p[i][p[i].len() - 1] != '\r');
        }
    }
    assert(body.push(p.last()) =~= p);
}

/// Join `lines` with `\n` between them.
pub fn join_lines(lines: &[Vec<char>]) -> (res: Vec<char>)
    ensures
        res@ == joined(views(lines@)),
{
    let mut out: Vec<char> = Vec::new();
    let mut i: usize = 0;
    while i < lines.len()
        invariant
            i <= lines@.len(),
            out@ == joined(views(lines@).take(i as int)),
        decreases lines@.len() - i,
    {
        let ghost before = out@;
        if i > 0 {
            out.push('\n');
        }
        append_chars(&mut out, lines[i].as_slice());
        proof {
            let tk = views(lines@).take(i + 1);
            assert(tk.drop_last() =~= views(lines@).take(i as int));
            assert(tk.last() == lines@[i as int]@);
            if i == 0 {
                assert(joined(Seq::<Seq<char>>::empty()) == Seq::<char>::empty());
                assert(out@ =~= lines@[i as int]@);
                assert(tk.len() == 1);
            } else {
                assert(out@ =~= before + seq!['\n'] + lines@[i as int]@);
            }
        }
        i = i + 1;
    }
    assert(views(lines@).take(lines@.len() as int) =~= views(lines@));
    out
}

/// `parts` joined with `sep` between them (`[String]::join(sep)`).
pub open spec fn joined_with(parts: Seq<Seq<char>>, sep: Seq<char>) -> Seq<char>
    decreases parts.len(),
{
    if parts.len() == 0 {
        Seq::<char>::empty()
    } else if parts.len() == 1 {
        parts[0]
    } else {
        joined_with(parts.drop_last(), sep) + sep + parts.last()
    }
}

/// Join `parts` with `sep` between them.
pub fn join_with(parts: &[Vec<char>], sep: &[char]) -> (res: Vec<char>)
    ensures
        res@ == joined_with(views(parts@), sep@),
{
    let mut out: Vec<char> = Vec::new();
    let mut i: usize = 0;
    while i < parts.len()
        invariant
            i <= parts@.len(),
            out@ == joined_with(views(parts@).take(i as int), sep@),
        decreases parts@.len() - i,
    {
        let ghost before = out@;
        if i > 0 {
            append_chars(&mut out, sep);
        }
        append_chars(&mut out, parts[i].as_slice());
        proof {
            let tk = views(parts@).take(i + 1);
            assert(tk.drop_last() =~= views(parts@).take(i as int));
            assert(tk.last() == parts@[i as int]@);
            if i == 0 {
                assert(joined_with(Seq::<Seq<char>>::empty(), sep@) == Seq::<char>::empty());
                assert(out@ =~= parts@[i as int]@);
                assert(tk.len() == 1);
            } else {
                assert(out@ =~= before + sep@ + parts@[i as int]@);
            }
        }
        i = i + 1;
    }
    assert(views(parts@).take(parts@.len() as int) =~= views(parts@));
    out
}

/// `str::split` by a non-empty separator, from the piece `cur` being read.
pub open spec fn split_str_from(s: Seq<char>, sep: Seq<char>, cur: Seq<char>) -> Seq<Seq<char>>
    decreases s.len(),
{
    if s.len() == 0 {
        seq![cur]
    } else if sep.len() > 0 && starts_with(s, sep) {
        seq![cur] + split_str_from(s.skip(sep.len() as int), sep, Seq::empty())
    } else {
        split_str_from(s.drop_first(), sep, cur.push(s[0]))
    }
}

/// `str::split` by a non-empty separator: the pieces between occurrences.
pub open spec fn split_str(s: Seq<char>, sep: Seq<char>) -> Seq<Seq<char>> {
    split_str_from(s, sep, Seq::empty())
}

/// Whether `p` occurs in `s` at position `i`.
pub fn occurs_at(s: &[char], i: usize, p: &[char]) -> (r: bool)
    requires
        i <= s@.len(),
    ensures
        r == starts_with(s@.skip(i as int), p@),
{
    if p.len() > s.len() - i {
        return false;
    }
    let n = s.len();
    let mut j: usize = 0;
    while j < p.len()
        invariant
            n == s@.len(),
            i + p@.len() <= s@.len(),
            j <= p@.len(),
            forall|k: int| 0 <= k < j ==> s@[i + k] == p@[k],
        decreases p@.len() - j,
    {
        if s[i + j] != p[j] {
            assert(s@.skip(i as int).take(p@.len() as int)[j as int] != p@[j as int]);
            return false;
        }
        j = j + 1;
    }
    assert(s@.skip(i as int).take(p@.len() as int) =~= p@);
    true
}

pub fn split_by(s: &[char], sep: &[char]) -> (res: Vec<Vec<char>>)
    requires
        sep@.len() > 0,
    ensures
        views(res@) == split_str(s@, sep@),
{
    let mut out: Vec<Vec<char>> = Vec::new();
    let mut cur: Vec<char> = Vec::new();
    let mut i: usize = 0;
    assert(s@.skip(0) =~= s@);
    while i < s.len()
        invariant
            i <= s@.len(),
            sep@.len() > 0,
            split_str(s@, sep@) == views(out@) + split_str_from(s@.skip(i as int), sep@, cur@),
        decreases s@.len() - i,
    {
        let ghost rest = s@.skip(i as int);
        if occurs_at(s, i, sep) {
            let ghost before = views(out@);
            let ghost c = cur@;
            out.push(cur);
            cur = Vec::new();
            assert(rest.skip(sep@.len() as int) =~= s@.skip(i + sep@.len()));
            assert(views(out@) =~= before.push(c));
            assert(split_str_from(rest, sep@, c) == seq![c] + split_str_from(
                rest.skip(sep@.len() as int),
                sep@,
                Seq::empty(),
            ));
            assert(before + (seq![c] + split_str_from(s@.skip(i + sep@.len()), sep@, cur@)) =~= views(out@)
                + split_str_from(s@.skip(i + sep@.len()), sep@, cur@));
            i = i + sep.len();
        } else {
            let ghost c = cur@;
            cur.push(s[i]);
            assert(rest.drop_first() =~= s@.skip(i + 1));
            assert(rest[0] == s@[i as int]);
            i = i + 1;
        }
    }
    let ghost before = views(out@);
    let ghost c = cur@;
    out.push(cur);
    assert(s@.skip(s@.len() as int) =~= Seq::<char>::empty());
    assert(views(out@) =~= before + seq![c]);
    out
}

/// `a` followed by `b`.
pub fn concat2(a: &str, b: &str) -> (r: String)
    ensures
        r@ == a@ + b@,
{
    let mut c = chars_of(a);
    append_chars(&mut c, chars_of(b).as_slice());
    string_of(c.as_slice())
}

/// `a`, `b` and `c` in a row.
pub fn concat3(a: &str, b: &str, c: &str) -> (r: String)
    ensures
        r@ == a@ + b@ + c@,
{
    let mut v = chars_of(a);
    append_chars(&mut v, chars_of(b).as_slice());
    append_chars(&mut v, chars_of(c).as_slice());
    string_of(v.as_slice())
}

/// `a`, `b`, `c` and `d` in a row.
pub fn concat4(a: &str, b: &str, c: &str, d: &str) -> (r: String)
    ensures
        r@ == a@ + b@ + c@ + d@,
{
    let mut v = chars_of(a);
    append_chars(&mut v, chars_of(b).as_slice());
    append_chars(&mut v, chars_of(c).as_slice());
    append_chars(&mut v, chars_of(d).as_slice());
    string_of(v.as_slice())
}

/// The whitespace-separated words of `s`, as strings.
pub fn words_of(s: &str) -> (r: Vec<String>)
    ensures
        r@.map_values(|w: String| w@) == words(s@),
{
    let ws = split_words(chars_of(s).as_slice());
    let mut r: Vec<String> = Vec::new();
    let mut i: usize = 0;
    while i < ws.len()
        invariant
            i <= ws@.len(),
            r@.map_values(|w: String| w@) == views(ws@).take(i as int),
        decreases ws@.len() - i,
    {
        let ghost before = r@.map_values(|w: String| w@);
        r.push(string_of(ws[i].as_slice()));
        assert(r@.map_values(|w: String| w@) =~= before.push(ws@[i as int]@));
        assert(views(ws@).take(i + 1) =~= views(ws@).take(i as int).push(ws@[i as int]@));
        i = i + 1;
    }
    assert(views(ws@).take(ws@.len() as int) =~= views(ws@));
    r
}

/// `r` is `v` in string order: a rearrangement (`r[i]` is `v[idx[i]]`)
/// whose strings never decrease.
pub open spec fn sorted_strings(v: Seq<Seq<char>>, r: Seq<Seq<char>>, idx: Seq<int>) -> bool {
    &&& idx.len() == v.len()
    &&& r.len() == v.len()
    &&& forall|i: int| 0 <= i < v.len() ==> 0 <= #[trigger] idx[i] < v.len()
    &&& forall|i: int, j: int| 0 <= i < j < v.len() ==> #[trigger] idx[i] != #[trigger] idx[j]
    &&& forall|i: int| 0 <= i < r.len() ==> #[trigger] r[i] == v[idx[i]]
    &&& forall|i: int, j: int| 0 <= i < j < r.len() ==> !seq_less(#[trigger] r[j], #[trigger] r[i])
}

proof fn lemma_insert_string(v: Seq<Seq<char>>, k: int, r: Seq<Seq<char>>, idx: Seq<int>, p: int)
    requires
        0 <= k < v.len(),
        sorted_strings(v.take(k), r, idx),
        0 <= p <= r.len(),
        forall|i: int| 0 <= i < p ==> !seq_less(v[k], #[trigger] r[i]),
        p < r.len() ==> seq_less(v[k], r[p]),
    ensures
        sorted_strings(v.take(k + 1), r.insert(p, v[k]), idx.insert(p, k)),
{
    let x = v[k];
    let r2 = r.insert(p, x);
    let idx2 = idx.insert(p, k);
    let vt = v.take(k + 1);
    assert forall|i: int| 0 <= i < r2.len() implies #[trigger] r2[i] == vt[idx2[i]] by {
        if i < p {
            assert(r2[i] == r[i] && idx2[i] == idx[i]);
        } else if i > p {
            assert(r2[i] == r[i - 1] && idx2[i] == idx[i - 1]);
        }
    }
    assert forall|i: int| 0 <= i < k + 1 implies 0 <= #[trigger] idx2[i] < k + 1 by {
        if i < p {
            assert(idx2[i] == idx[i]);
        } else if i > p {
            assert(idx2[i] == idx[i - 1]);
        }
    }
    assert forall|i: int, j: int| 0 <= i < j < k + 1 implies #[trigger] idx2[i] != #[trigger] idx2[j] by {
        if i != p && j != p {
            let a = if i < p {
                i
            } else {
                i - 1
            };
            let b = if j < p {
                j
            } else {
                j - 1
            };
            assert(idx2[i] == idx[a] && idx2[j] == idx[b]);
        } else if i == p {
            assert(idx2[j] == idx[j - 1]);
        } else {
            assert(idx2[i] == idx[i]);
        }
    }
    assert forall|i: int, j: int| 0 <= i < j < r2.len() implies !seq_less(#[trigger] r2[j], #[trigger] r2[i]) by {
        if j < p {
            assert(r2[i] == r[i] && r2[j] == r[j]);
        } else if j == p {
            assert(r2[i] == r[i]);
        } else if i > p {
            assert(r2[i] == r[i - 1] && r2[j] == r[j - 1]);
        } else if i == p {
            assert(r2[j] == r[j - 1]);
            if j - 1 > p {
                lemma_seq_less_total(r[p], r[j - 1]);
                if r[p] != r[j - 1] {
                    lemma_seq_less_transitive(x, r[p], r[j - 1]);
                }
            }
            lemma_seq_less_asym(x, r[j - 1]);
        } else {
            assert(r2[i] == r[i] && r2[j] == r[j - 1]);
        }
    }
}

/// The strings in string order.
pub fn sort_strings(v: Vec<String>) -> (r: Vec<String>)
    ensures
        exists|idx: Seq<int>| sorted_strings(crate::config::strs(v@), crate::config::strs(r@), idx),
{
    let ghost vv = crate::config::strs(v@);
    let mut r: Vec<String> = Vec::new();
    let ghost mut idx: Seq<int> = Seq::empty();
    let mut k: usize = 0;
    while k < v.len()
        invariant
            k <= v@.len(),
            vv == crate::config::strs(v@),
            r@.len() == k,
            sorted_strings(vv.take(k as int), crate::config::strs(r@), idx),
        decreases v@.len() - k,
    {
        let x = chars_of(v[k].as_str());
        let mut p: usize = 0;
        while p < r.len() && !less_chars(x.as_slice(), chars_of(r[p].as_str()).as_slice())
            invariant
                p <= r@.len(),
                forall|i: int| 0 <= i < p ==> !seq_less(x@, #[trigger] crate::config::strs(r@)[i]),
            decreases r@.len() - p,
        {
            assert(crate::config::strs(r@)[p as int] == r@[p as int]@);
            p = p + 1;
        }
        let ghost old_r = crate::config::strs(r@);
        proof {
            if p < r@.len() {
                assert(old_r[p as int] == r@[p as int]@);
            }
            lemma_insert_string(vv, k as int, old_r, idx, p as int);
            idx = idx.insert(p as int, k as int);
        }
        r.insert(p, v[k].clone());
        assert(crate::config::strs(r@) =~= old_r.insert(p as int, vv[k as int]));
        assert(vv.take(k + 1) =~= vv.take(k as int).push(vv[k as int]));
        k = k + 1;
    }
    assert(vv.take(v@.len() as int) =~= vv);
    r
}

} // verus!
