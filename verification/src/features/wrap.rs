//! Word wrapping of a log line for the log view: the line is cut into
//! space-ended words (`str::split_inclusive(' ')`), words are laid out
//! greedily in rows of at most `width` bytes, and a word longer than a row
//! is cut into pieces of as many whole characters as fit in a row (one
//! character when not even one fits).
use crate::text::{byte_len, byte_len_of, char_width, slice_vec};
use vstd::prelude::*;

verus! {

/// A row of a wrapped line: its text, its byte offset in the line, and
/// whether the line's URLs are kept on it (a piece cut out of an over-long
/// word keeps none).
pub type Segment = (Seq<char>, nat, bool);

/// The rows laid out so far, the row being filled, its offset, and the
/// word being read.
pub struct WrapState {
    pub out: Seq<Segment>,
    pub cur: Seq<char>,
    pub off: nat,
    pub word: Seq<char>,
}

/// How many leading characters of `w` fit in `width` bytes: the longest
/// prefix that does.
pub open spec fn fit_len(w: Seq<char>, width: nat) -> nat
    decreases w.len(),
{
    if w.len() == 0 || byte_len(w) <= width {
        w.len()
    } else {
        fit_len(w.drop_last(), width)
    }
}

/// How many characters the next piece of an over-long word takes: as many
/// as fit, but at least one, so the cutting always moves on.
pub open spec fn cut_len(w: Seq<char>, width: nat) -> nat {
    if fit_len(w, width) == 0 {
        1
    } else {
        fit_len(w, width)
    }
}

/// The pieces cut from the front of a word longer than a row while it is
/// longer, with what is left and the offset after the pieces.
pub open spec fn split_heads(w: Seq<char>, width: nat, off: nat) -> (Seq<Segment>, Seq<char>, nat)
    decreases w.len(),
{
    let k = cut_len(w, width) as int;
    if byte_len(w) <= width || k > w.len() {
        (Seq::empty(), w, off)
    } else {
        let (hs, r, o) = split_heads(w.skip(k), width, off + byte_len(w.take(k)));
        (seq![(w.take(k), off, false)] + hs, r, o)
    }
}

/// Lay out word `w` after the row `cur` (at offset `off`): it joins the row
/// when it fits; else the row is finished (when not empty) and the word
/// starts the next one, cut first when it is longer than a row.
pub open spec fn word_step(out: Seq<Segment>, cur: Seq<char>, off: nat, w: Seq<char>, width: nat) -> (
    Seq<Segment>,
    Seq<char>,
    nat,
) {
    if byte_len(cur) + byte_len(w) <= width {
        (out, cur + w, off)
    } else {
        let out1 = if cur.len() > 0 {
            out.push((cur, off, true))
        } else {
            out
        };
        let off1 = if cur.len() > 0 {
            off + byte_len(cur)
        } else {
            off
        };
        if byte_len(w) > width {
            let (hs, r, o) = split_heads(w, width, off1);
            (out1 + hs, r, o)
        } else {
            (out1, w, off1)
        }
    }
}

/// The layout after reading the first `i` characters of `s`: a word ends
/// with each space.
pub open spec fn wrap_from(s: Seq<char>, width: nat, i: int) -> WrapState
    decreases i,
{
    if i <= 0 {
        WrapState { out: Seq::empty(), cur: Seq::empty(), off: 0, word: Seq::empty() }
    } else {
        let st = wrap_from(s, width, i - 1);
        let w = st.word.push(s[i - 1]);
        if s[i - 1] == ' ' {
            let (o, c, f) = word_step(st.out, st.cur, st.off, w, width);
            WrapState { out: o, cur: c, off: f, word: Seq::empty() }
        } else {
            WrapState { out: st.out, cur: st.cur, off: st.off, word: w }
        }
    }
}

/// The rows of line `s` wrapped at `width` bytes: the last word is laid out
/// and the last row finished.
pub open spec fn wrapped(s: Seq<char>, width: nat) -> Seq<Segment> {
    let st = wrap_from(s, width, s.len() as int);
    let (o, c, f) = if st.word.len() > 0 {
        word_step(st.out, st.cur, st.off, st.word, width)
    } else {
        (st.out, st.cur, st.off)
    };
    if c.len() > 0 {
        o.push((c, f, true))
    } else {
        o
    }
}

/// The texts of the rows, one after another.
pub open spec fn seg_text(segs: Seq<Segment>) -> Seq<char>
    decreases segs.len(),
{
    if segs.len() == 0 {
        Seq::empty()
    } else {
        seg_text(segs.drop_last()) + segs.last().0
    }
}

/// A row fits: at most `width` bytes, or a single character where not even
/// one fits.
pub open spec fn row_fits(t: Seq<char>, width: nat) -> bool {
    byte_len(t) <= width || t.len() == 1
}

/// Every row fits.
pub open spec fn rows_fit(segs: Seq<Segment>, width: nat) -> bool {
    forall|i: int| 0 <= i < segs.len() ==> row_fits((#[trigger] segs[i]).0, width)
}

proof fn lemma_seg_text_add(a: Seq<Segment>, b: Seq<Segment>)
    ensures
        seg_text(a + b) == seg_text(a) + seg_text(b),
    decreases b.len(),
{
    if b.len() > 0 {
        lemma_seg_text_add(a, b.drop_last());
        assert((a + b).drop_last() =~= a + b.drop_last());
        assert(seg_text(a + b) =~= seg_text(a) + seg_text(b));
    } else {
        assert(a + b =~= a);
        assert(seg_text(a) + seg_text(b) =~= seg_text(a));
    }
}

proof fn lemma_seg_push(a: Seq<Segment>, g: Segment, width: nat)
    requires
        rows_fit(a, width),
        row_fits(g.0, width),
    ensures
        rows_fit(a.push(g), width),
        seg_text(a.push(g)) == seg_text(a) + g.0,
{
    assert(a.push(g).drop_last() =~= a);
    assert forall|i: int| 0 <= i < a.push(g).len() implies row_fits((#[trigger] a.push(g)[i]).0, width) by {
        if i < a.len() {
            assert(a.push(g)[i] == a[i]);
        }
    }
}

proof fn lemma_seg_prepend(g: Segment, hs: Seq<Segment>, width: nat)
    requires
        rows_fit(hs, width),
        row_fits(g.0, width),
    ensures
        rows_fit(seq![g] + hs, width),
        seg_text(seq![g] + hs) == g.0 + seg_text(hs),
{
    let head = seq![g];
    assert(seg_text(Seq::<Segment>::empty()) == Seq::<char>::empty());
    assert(head.drop_last() =~= Seq::<Segment>::empty());
    assert(seg_text(head) =~= g.0);
    lemma_seg_text_add(head, hs);
    assert forall|i: int| 0 <= i < (head + hs).len() implies row_fits((#[trigger] (head + hs)[i]).0, width) by {
        if i > 0 {
            assert((head + hs)[i] == hs[i - 1]);
        }
    }
}

/// The characters that fit make the longest prefix within `width` bytes.
proof fn lemma_fit_len(w: Seq<char>, width: nat)
    ensures
        fit_len(w, width) <= w.len(),
        byte_len(w.take(fit_len(w, width) as int)) <= width,
        byte_len(w) > width ==> fit_len(w, width) < w.len(),
    decreases w.len(),
{
    if w.len() == 0 {
        assert(w.take(0) =~= Seq::<char>::empty());
    } else if byte_len(w) <= width {
        assert(w.take(w.len() as int) =~= w);
    } else {
        lemma_fit_len(w.drop_last(), width);
        let k = fit_len(w.drop_last(), width) as int;
        assert(w.drop_last().take(k) =~= w.take(k));
    }
}

/// A prefix within `width` bytes that cannot take one more character is
/// the one that fits.
proof fn lemma_fit_len_is(w: Seq<char>, width: nat, k: int)
    requires
        0 <= k <= w.len(),
        byte_len(w.take(k)) <= width,
        k == w.len() || byte_len(w.take(k + 1)) > width,
    ensures
        fit_len(w, width) == k,
    decreases w.len(),
{
    if w.len() == 0 {
    } else if byte_len(w) <= width {
        if k < w.len() {
            crate::text::lemma_byte_len_prefix(w, k + 1);
        }
    } else {
        assert(w.take(w.len() as int) =~= w);
        let d = w.drop_last();
        assert(d.take(k) =~= w.take(k));
        if k < d.len() {
            assert(d.take(k + 1) =~= w.take(k + 1));
        }
        lemma_fit_len_is(d, width, k);
    }
}

proof fn lemma_split_heads_rows(w: Seq<char>, width: nat, off: nat)
    ensures
        ({
            let (hs, r, o) = split_heads(w, width, off);
            rows_fit(hs, width) && seg_text(hs) + r == w && byte_len(r) <= width && o + byte_len(r) == off
                + byte_len(w)
        }),
    decreases w.len(),
{
    let k = cut_len(w, width) as int;
    lemma_fit_len(w, width);
    if byte_len(w) <= width || k > w.len() {
        assert(seg_text(Seq::<Segment>::empty()) + w =~= w);
    } else {
        let (hs, r, o) = split_heads(w.skip(k), width, off + byte_len(w.take(k)));
        lemma_split_heads_rows(w.skip(k), width, off + byte_len(w.take(k)));
        assert(row_fits(w.take(k), width)) by {
            if fit_len(w, width) == 0 {
                assert(w.take(k).len() == 1);
            }
        }
        lemma_seg_prepend((w.take(k), off, false), hs, width);
        assert(w.take(k) + w.skip(k) =~= w);
        assert(w.take(k) + seg_text(hs) + r =~= w.take(k) + (seg_text(hs) + r));
        lemma_byte_len_split(w, k);
    }
}

proof fn lemma_word_step_rows(out: Seq<Segment>, cur: Seq<char>, off: nat, w: Seq<char>, width: nat)
    requires
        rows_fit(out, width),
        byte_len(cur) <= width,
    ensures
        ({
            let (o, c, f) = word_step(out, cur, off, w, width);
            rows_fit(o, width) && seg_text(o) + c == seg_text(out) + cur + w && byte_len(c) <= width
        }),
{
    if byte_len(cur) + byte_len(w) <= width {
        lemma_byte_len_split(cur + w, cur.len() as int);
        assert((cur + w).take(cur.len() as int) =~= cur);
        assert((cur + w).skip(cur.len() as int) =~= w);
        assert(seg_text(out) + (cur + w) =~= seg_text(out) + cur + w);
    } else {
        let out1 = if cur.len() > 0 {
            out.push((cur, off, true))
        } else {
            out
        };
        if cur.len() > 0 {
            lemma_seg_push(out, (cur, off, true), width);
        } else {
            assert(cur =~= Seq::<char>::empty());
            assert(seg_text(out) + cur =~= seg_text(out));
        }
        assert(seg_text(out1) == seg_text(out) + cur);
        let off1 = if cur.len() > 0 {
            off + byte_len(cur)
        } else {
            off
        };
        if byte_len(w) > width {
            lemma_split_heads_rows(w, width, off1);
            let (hs, r, o) = split_heads(w, width, off1);
            lemma_seg_text_add(out1, hs);
            assert forall|i: int| 0 <= i < (out1 + hs).len() implies row_fits((#[trigger] (out1 + hs)[i]).0, width) by {
                if i < out1.len() {
                    assert((out1 + hs)[i] == out1[i]);
                } else {
                    assert((out1 + hs)[i] == hs[i - out1.len()]);
                }
            }
            assert(seg_text(out1 + hs) + r =~= seg_text(out) + cur + (seg_text(hs) + r));
        }
    }
}

proof fn lemma_wrap_from_rows(s: Seq<char>, width: nat, i: int)
    requires
        0 <= i <= s.len(),
    ensures
        ({
            let st = wrap_from(s, width, i);
            rows_fit(st.out, width) && byte_len(st.cur) <= width && seg_text(st.out) + st.cur + st.word == s.take(i)
        }),
    decreases i,
{
    if i <= 0 {
        assert(s.take(0) =~= Seq::<char>::empty());
        assert(seg_text(Seq::<Segment>::empty()) + Seq::<char>::empty() + Seq::<char>::empty() =~= Seq::<char>::empty());
    } else {
        lemma_wrap_from_rows(s, width, i - 1);
        let st = wrap_from(s, width, i - 1);
        let w = st.word.push(s[i - 1]);
        assert(s.take(i) =~= s.take(i - 1).push(s[i - 1]));
        if s[i - 1] == ' ' {
            lemma_word_step_rows(st.out, st.cur, st.off, w, width);
            let (o, c, f) = word_step(st.out, st.cur, st.off, w, width);
            assert(seg_text(o) + c + Seq::<char>::empty() =~= seg_text(o) + c);
            assert(seg_text(st.out) + st.cur + w =~= seg_text(st.out) + st.cur + st.word + seq![s[i - 1]]);
        } else {
            assert(seg_text(st.out) + st.cur + w =~= seg_text(st.out) + st.cur + st.word + seq![s[i - 1]]);
        }
    }
}

/// A line's rows each hold at most `width` bytes (or are one character
/// where not even one fits), and one after another they give the line back.
pub proof fn law_wrapped_rows_fit_and_rejoin(s: Seq<char>, width: nat)
    ensures
        rows_fit(wrapped(s, width), width),
        seg_text(wrapped(s, width)) == s,
{
    lemma_wrap_from_rows(s, width, s.len() as int);
    assert(s.take(s.len() as int) =~= s);
    let st = wrap_from(s, width, s.len() as int);
    if st.word.len() > 0 {
        lemma_word_step_rows(st.out, st.cur, st.off, st.word, width);
    } else {
        assert(seg_text(st.out) + st.cur + st.word =~= seg_text(st.out) + st.cur);
    }
    let (o, c, f) = if st.word.len() > 0 {
        word_step(st.out, st.cur, st.off, st.word, width)
    } else {
        (st.out, st.cur, st.off)
    };
    if c.len() > 0 {
        lemma_seg_push(o, (c, f, true), width);
    } else {
        assert(seg_text(o) + c =~= seg_text(o));
    }
}

pub open spec fn seg_views(v: Seq<(Vec<char>, usize, bool)>) -> Seq<Segment> {
    v.map_values(|t: (Vec<char>, usize, bool)| (t.0@, t.1 as nat, t.2))
}

/// The bytes of a text are those of its first `k` characters and the rest.
pub proof fn lemma_byte_len_split(s: Seq<char>, k: int)
    requires
        0 <= k <= s.len(),
    ensures
        byte_len(s) == byte_len(s.take(k)) + byte_len(s.skip(k)),
    decreases s.len(),
{
    if k == s.len() {
        assert(s.take(k) =~= s);
        assert(s.skip(k).len() == 0);
    } else {
        let t = s.drop_last();
        lemma_byte_len_split(t, k);
        assert(t.take(k) =~= s.take(k));
        assert(s.skip(k).drop_last() =~= t.skip(k));
        assert(s.skip(k).last() == s.last());
    }
}

/// The characters of the next piece cut from the over-long word `w`.
fn cut_exec(w: &[char], width: usize) -> (k: usize)
    requires
        byte_len(w@) > width,
    ensures
        k == cut_len(w@, width as nat),
        1 <= k <= w@.len(),
{
    let mut k: usize = 0;
    let mut acc: usize = 0;
    let mut stop = false;
    proof {
        assert(w@.take(0) =~= Seq::<char>::empty());
    }
    while k < w.len() && !stop
        invariant
            k <= w@.len(),
            acc == byte_len(w@.take(k as int)),
            acc <= width,
            stop ==> k < w@.len() && byte_len(w@.take(k + 1)) > width,
        decreases w@.len() - k + (if stop { 0int } else { 1int }),
    {
        let cw = char_width(w[k]);
        proof {
            assert(w@.take(k + 1).drop_last() =~= w@.take(k as int));
        }
        if cw > width - acc {
            stop = true;
        } else {
            acc = acc + cw;
            k = k + 1;
        }
    }
    proof {
        lemma_fit_len_is(w@, width as nat, k as int);
        lemma_fit_len(w@, width as nat);
    }
    if k == 0 {
        1
    } else {
        k
    }
}

fn split_heads_exec(w: &[char], width: usize, off: usize) -> (r: (Vec<(Vec<char>, usize, bool)>, Vec<char>, usize))
    requires
        off + byte_len(w@) <= usize::MAX,
    ensures
        split_heads(w@, width as nat, off as nat) == (seg_views(r.0@), r.1@, r.2 as nat),
    decreases w@.len(),
{
    let n = byte_len_of(w);
    if n <= width {
        let rest = slice_vec(w, 0, w.len());
        assert(rest@ =~= w@);
        assert(seg_views(Seq::<(Vec<char>, usize, bool)>::empty()) =~= Seq::<Segment>::empty());
        return (Vec::new(), rest, off);
    }
    let k = cut_exec(w, width);
    let head = slice_vec(w, 0, k);
    let tail = slice_vec(w, k, w.len());
    proof {
        assert(head@ =~= w@.take(k as int));
        assert(tail@ =~= w@.skip(k as int));
        lemma_byte_len_split(w@, k as int);
    }
    let hl = byte_len_of(head.as_slice());
    let (hs, r, o) = split_heads_exec(tail.as_slice(), width, off + hl);
    let mut v: Vec<(Vec<char>, usize, bool)> = Vec::new();
    v.push((head, off, false));
    let ghost first = v@;
    let mut hs2 = hs;
    let ghost hv = hs2@;
    v.append(&mut hs2);
    assert(v@ =~= first + hv);
    assert(seg_views(v@) =~= seq![(w@.take(k as int), off as nat, false)] + seg_views(hv));
    (v, r, o)
}

/// Lay out word `w` (`wl` bytes) after the row `cur`.
fn word_step_exec(
    out: &mut Vec<(Vec<char>, usize, bool)>,
    cur: &mut Vec<char>,
    cur_len: &mut usize,
    off: &mut usize,
    w: Vec<char>,
    wl: usize,
    width: usize,
)
    requires
        wl == byte_len(w@),
        *old(cur_len) == byte_len(old(cur)@),
        *old(off) + *old(cur_len) + wl <= usize::MAX,
    ensures
        word_step(seg_views(old(out)@), old(cur)@, *old(off) as nat, w@, width as nat) == (
            seg_views(final(out)@),
            final(cur)@,
            *final(off) as nat,
        ),
        *final(cur_len) == byte_len(final(cur)@),
        *final(off) + *final(cur_len) == *old(off) + *old(cur_len) + wl,
{
    if *cur_len <= width && wl <= width - *cur_len {
        let ghost before = cur@;
        let mut w2 = w;
        cur.append(&mut w2);
        *cur_len = *cur_len + wl;
        proof {
            lemma_byte_len_split(cur@, before.len() as int);
            assert(cur@.take(before.len() as int) =~= before);
            assert(cur@.skip(before.len() as int) =~= w@);
        }
        return;
    }
    if cur.len() > 0 {
        let row = slice_vec(cur.as_slice(), 0, cur.len());
        assert(row@ =~= old(cur)@);
        let ghost o = out@;
        out.push((row, *off, true));
        assert(seg_views(out@) =~= seg_views(o).push((old(cur)@, *old(off) as nat, true)));
        *off = *off + *cur_len;
    }
    *cur = Vec::new();
    *cur_len = 0;
    if wl > width {
        let (hs, r, o) = split_heads_exec(w.as_slice(), width, *off);
        proof {
            lemma_split_heads_rows(w@, width as nat, *off as nat);
        }
        let ghost before = out@;
        let mut hs2 = hs;
        let ghost hv = hs2@;
        out.append(&mut hs2);
        assert(out@ =~= before + hv);
        assert(seg_views(out@) =~= seg_views(before) + seg_views(hv));
        let rl = byte_len_of(r.as_slice());
        *cur = r;
        *cur_len = rl;
        *off = o;
    } else {
        *cur = w;
        *cur_len = wl;
    }
}

/// The rows of line `s` wrapped at `width` bytes, each as its text, its
/// byte offset in the line, and whether the line's URLs are kept on it.
pub fn line_segments(s: &[char], width: usize) -> (r: Vec<(Vec<char>, usize, bool)>)
    requires
        byte_len(s@) <= usize::MAX,
    ensures
        wrapped(s@, width as nat) == seg_views(r@),
{
    let mut out: Vec<(Vec<char>, usize, bool)> = Vec::new();
    let mut cur: Vec<char> = Vec::new();
    let mut cur_len: usize = 0;
    let mut off: usize = 0;
    let mut word: Vec<char> = Vec::new();
    let mut word_len: usize = 0;
    let mut i: usize = 0;
    proof {
        assert(s@.take(0) =~= Seq::<char>::empty());
        assert(seg_views(out@) =~= Seq::<Segment>::empty());
    }
    while i < s.len()
        invariant
            i <= s@.len(),
            byte_len(s@) <= usize::MAX,
            wrap_from(s@, width as nat, i as int) == (WrapState {
                out: seg_views(out@),
                cur: cur@,
                off: off as nat,
                word: word@,
            }),
            cur_len == byte_len(cur@),
            word_len == byte_len(word@),
            off + cur_len + word_len == byte_len(s@.take(i as int)),
        decreases s@.len() - i,
    {
        let c = s[i];
        proof {
            assert(s@.take(i + 1).drop_last() =~= s@.take(i as int));
            crate::text::lemma_byte_len_prefix(s@, i + 1);
            assert(word@.push(c).drop_last() =~= word@);
        }
        word.push(c);
        word_len = word_len + char_width(c);
        if c == ' ' {
            let w = word;
            word = Vec::new();
            let wl = word_len;
            word_len = 0;
            word_step_exec(&mut out, &mut cur, &mut cur_len, &mut off, w, wl, width);
        }
        i = i + 1;
    }
    assert(s@.take(s@.len() as int) =~= s@);
    if word.len() > 0 {
        let w = word;
        word_step_exec(&mut out, &mut cur, &mut cur_len, &mut off, w, word_len, width);
    }
    if cur.len() > 0 {
        let ghost o = out@;
        let ghost cv = cur@;
        out.push((cur, off, true));
        assert(seg_views(out@) =~= seg_views(o).push((cv, off as nat, true)));
    }
    out
}

} // verus!
