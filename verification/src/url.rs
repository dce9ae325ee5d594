//! URLs in log lines: where they are, and which one a click hits.
use crate::text::{byte_len, byte_len_of, chars_of, is_ws, lemma_byte_len_prefix, string_of};
use vstd::prelude::*;

verus! {

/// Represents a detected URL within a line of text.
#[derive(Clone, Debug)]
pub struct UrlMatch {
    /// The URL string
    pub url: String,
    /// Start column (byte offset) in the rendered line
    pub start: usize,
    /// End column (byte offset, exclusive)
    pub end: usize,
}

/// The matches of the pattern `https?://[^\s\x1b\]\)]+` in `line`, left to
/// right: byte offset of each match and the matched text.
pub uninterp spec fn url_pattern_matches(line: Seq<char>) -> Seq<(usize, Seq<char>)>;

/// A character a URL runs through: anything but whitespace, ESC, `]` and
/// `)` (the class `[^\s\x1b\]\)]`, `\s` being Unicode white space).
pub open spec fn url_char(c: char) -> bool {
    !is_ws(c) && c != '\u{1b}' && c != ']' && c != ')'
}

/// A URL can begin at character `ci` of `line`: `http://` or `https://`
/// followed by at least one URL character.
pub open spec fn url_begins(line: Seq<char>, ci: int) -> bool {
    ||| (0 <= ci && ci + 8 <= line.len() && line.subrange(ci, ci + 7) == "http://"@ && url_char(line[ci + 7]))
    ||| (0 <= ci && ci + 9 <= line.len() && line.subrange(ci, ci + 8) == "https://"@ && url_char(line[ci + 8]))
}

/// Match `m` (byte offset, text) lies in `line` from character `ci`.
pub open spec fn match_at(line: Seq<char>, m: (usize, Seq<char>), ci: int) -> bool {
    &&& 0 <= ci
    &&& ci + m.1.len() <= line.len()
    &&& byte_len(line.take(ci)) == m.0
    &&& line.subrange(ci, ci + m.1.len()) == m.1
}

/// What the matches of `https?://[^\s\x1b\]\)]+` found left to right in
/// `line` are like: each begins where a URL can begin, runs through URL
/// characters only, and runs on as far as they go (the character after it,
/// if any, is not one); and every place where a URL can begin lies within
/// a match.
#[verifier::opaque]
pub open spec fn url_matches_found(line: Seq<char>, ms: Seq<(usize, Seq<char>)>) -> bool {
    &&& forall|k: int|
        #![trigger ms[k]]
        0 <= k < ms.len() ==> exists|ci: int|
            #[trigger] match_at(line, ms[k], ci) && url_begins(line, ci) && (forall|j: int|
                0 <= j < ms[k].1.len() ==> url_char(#[trigger] ms[k].1[j])) && (ci + ms[k].1.len() < line.len()
                ==> !url_char(line[ci + ms[k].1.len()]))
    &&& forall|ci: int|
        #[trigger] url_begins(line, ci) ==> exists|k: int, cj: int|
            0 <= k < ms.len() && #[trigger] match_at(line, ms[k], cj) && cj <= ci < cj + ms[k].1.len()
}

/// `t` stands in `line` at byte offset `start`: some character position
/// lies at that offset and the characters from there on are `t`.
pub open spec fn text_at(line: Seq<char>, start: nat, t: Seq<char>) -> bool {
    exists|ci: int|
        0 <= ci && ci + t.len() <= line.len() && #[trigger] byte_len(line.take(ci)) == start && line.subrange(
            ci,
            ci + t.len(),
        ) == t
}

/// `regex::Regex::find_iter` with the URL pattern, each match as its start
/// offset and its text. The matches are the named result for `line`. As
/// the crate documents, they come left to right without overlapping, and
/// each match's text is the line's text from its start (`Match::as_str` is
/// the haystack between `Match::start` and `Match::end`, byte offsets on
/// character boundaries), so it ends at a byte offset that is a `usize`.
#[verifier::external_body]
fn url_pattern_find(line: &str) -> (r: Vec<(usize, String)>)
    ensures
        r@.len() == url_pattern_matches(line@).len(),
        forall|i: int|
            0 <= i < r@.len() ==> (#[trigger] r@[i]).0 == url_pattern_matches(line@)[i].0
                && r@[i].1@ == url_pattern_matches(line@)[i].1,
        forall|i: int|
            0 <= i < r@.len() ==> (#[trigger] r@[i]).0 + byte_len(r@[i].1@) <= usize::MAX,
        forall|i: int| 0 <= i < r@.len() ==> text_at(line@, (#[trigger] r@[i]).0 as nat, r@[i].1@),
        forall|i: int, j: int|
            #![trigger r@[i], r@[j]]
            0 <= i < j < r@.len() ==> r@[i].0 + byte_len(r@[i].1@) <= r@[j].0,
        url_matches_found(line@, r@.map_values(|e: (usize, String)| (e.0, e.1@))),
{
    let re = regex::Regex::new(r"https?://[^\s\x1b\]\)]+").unwrap();
    re.find_iter(line).map(|m| (m.start(), m.as_str().to_string())).collect()
}

pub open spec fn is_url_trailer(c: char) -> bool {
    c == '.' || c == ',' || c == ')' || c == ']'
}

/// `s` without trailing `.`, `,`, `)` and `]`.
pub open spec fn trim_url_end(s: Seq<char>) -> Seq<char>
    decreases s.len(),
{
    if s.len() > 0 && is_url_trailer(s.last()) {
        trim_url_end(s.drop_last())
    } else {
        s
    }
}

/// The URL a pattern match stands for.
pub open spec fn url_of_match(m: (usize, Seq<char>)) -> (Seq<char>, nat, nat) {
    let u = trim_url_end(m.1);
    (u, m.0 as nat, (m.0 + byte_len(u)) as nat)
}

proof fn lemma_trim_url_end_prefix(s: Seq<char>)
    ensures
        trim_url_end(s).len() <= s.len(),
        trim_url_end(s) == s.take(trim_url_end(s).len() as int),
    decreases s.len(),
{
    if s.len() > 0 && is_url_trailer(s.last()) {
        lemma_trim_url_end_prefix(s.drop_last());
        assert(s.drop_last().take(trim_url_end(s).len() as int) =~= s.take(
            trim_url_end(s).len() as int,
        ));
    } else {
        assert(s.take(s.len() as int) =~= s);
    }
}

fn trim_url_end_exec(s: &[char]) -> (res: Vec<char>)
    ensures
        res@ == trim_url_end(s@),
{
    let mut j = s.len();
    proof {
        assert(s@.take(j as int) =~= s@);
    }
    while j > 0 && (s[j - 1] == '.' || s[j - 1] == ',' || s[j - 1] == ')' || s[j - 1] == ']')
        invariant
            j <= s@.len(),
            trim_url_end(s@) == trim_url_end(s@.take(j as int)),
        decreases j,
    {
        assert(s@.take(j as int).drop_last() =~= s@.take(j - 1));
        j = j - 1;
    }
    crate::text::slice_vec(s, 0, j)
}

/// Whether `u` is the URL match `m` of the pattern.
pub open spec fn is_match_of(u: UrlMatch, m: (usize, Seq<char>)) -> bool {
    let (text, start, end) = url_of_match(m);
    u.url@ == text && u.start == start && u.end == end
}

/// Find all URLs in a line and return their positions: each match of the URL
/// pattern, with trailing `.`, `,`, `)` and `]` dropped from its text.
/// What `find_urls` answers for `line`: one URL per pattern match, each
/// the match without its trailing punctuation, the matches being as the
/// pattern finds them.
pub open spec fn urls_found(line: Seq<char>, res: Seq<UrlMatch>) -> bool {
    &&& res.len() == url_pattern_matches(line).len()
    &&& forall|i: int| 0 <= i < res.len() ==> is_match_of(#[trigger] res[i], url_pattern_matches(line)[i])
    &&& url_matches_found(line, url_pattern_matches(line))
}

/// `u` is the line's text between its start and end byte offsets.
pub open spec fn url_in_line(line: Seq<char>, u: UrlMatch) -> bool {
    exists|ci: int|
        0 <= ci && ci + u.url@.len() <= line.len() && #[trigger] byte_len(line.take(ci)) == u.start
            && byte_len(line.take(ci + u.url@.len())) == u.end && line.subrange(ci, ci + u.url@.len())
            == u.url@
}

/// Find all URLs in a line and return their positions: each match of the URL
/// pattern, with trailing `.`, `,`, `)` and `]` dropped from its text. Each
/// URL is the line's text between its start and end, and they come left to
/// right without overlapping.
pub fn find_urls(line: &str) -> (res: Vec<UrlMatch>)
    ensures
        res@.len() == url_pattern_matches(line@).len(),
        forall|i: int|
            0 <= i < res@.len() ==> is_match_of(#[trigger] res@[i], url_pattern_matches(line@)[i]),
        forall|i: int| 0 <= i < res@.len() ==> url_in_line(line@, #[trigger] res@[i]),
        urls_found(line@, res@),
        forall|i: int, j: int| #![trigger res@[i], res@[j]] 0 <= i < j < res@.len() ==> res@[i].end <= res@[j].start,
{
    let found = url_pattern_find(line);
    proof {
        let fv = found@.map_values(|e: (usize, String)| (e.0, e.1@));
        assert(fv =~= url_pattern_matches(line@));
    }
    let mut res: Vec<UrlMatch> = Vec::new();
    let mut i: usize = 0;
    while i < found.len()
        invariant
            i <= found@.len(),
            res@.len() == i,
            found@.len() == url_pattern_matches(line@).len(),
            forall|k: int|
                0 <= k < found@.len() ==> (#[trigger] found@[k]).0 == url_pattern_matches(
                    line@,
                )[k].0 && found@[k].1@ == url_pattern_matches(line@)[k].1,
            forall|k: int|
                0 <= k < found@.len() ==> (#[trigger] found@[k]).0 + byte_len(found@[k].1@)
                    <= usize::MAX,
            forall|k: int|
                0 <= k < i ==> is_match_of(#[trigger] res@[k], url_pattern_matches(line@)[k]),
            forall|k: int| 0 <= k < found@.len() ==> text_at(line@, (#[trigger] found@[k]).0 as nat, found@[k].1@),
            forall|a: int, b: int|
                #![trigger found@[a], found@[b]]
                0 <= a < b < found@.len() ==> found@[a].0 + byte_len(found@[a].1@) <= found@[b].0,
            forall|k: int| 0 <= k < i ==> url_in_line(line@, #[trigger] res@[k]),
            forall|k: int|
                0 <= k < i ==> (#[trigger] res@[k]).start == found@[k].0 && res@[k].end <= found@[k].0
                    + byte_len(found@[k].1@),
        decreases found@.len() - i,
    {
        let start = found[i].0;
        let text = chars_of(found[i].1.as_str());
        let u = trim_url_end_exec(text.as_slice());
        proof {
            assert(found@[i as int].0 + byte_len(found@[i as int].1@) <= usize::MAX);
            lemma_trim_url_end_prefix(text@);
            lemma_byte_len_prefix(text@, u@.len() as int);
        }
        let n = byte_len_of(u.as_slice());
        let m = UrlMatch { url: string_of(u.as_slice()), start, end: start + n };
        proof {
            let t = text@;
            let ci = choose|ci: int|
                0 <= ci && ci + t.len() <= line@.len() && #[trigger] byte_len(line@.take(ci)) == start && line@.subrange(
                    ci,
                    ci + t.len(),
                ) == t;
            let k = u@.len() as int;
            assert(u@ == t.take(k));
            assert(line@.subrange(ci, ci + k) =~= t.take(k));
            let p = line@.take(ci + k);
            crate::features::wrap::lemma_byte_len_split(p, ci);
            assert(p.take(ci) =~= line@.take(ci));
            assert(p.skip(ci) =~= u@);
            assert(url_in_line(line@, m));
        }
        let ghost before = res@;
        res.push(m);
        proof {
            assert forall|k: int| 0 <= k < i + 1 implies url_in_line(line@, #[trigger] res@[k]) by {
                if k < i {
                    assert(res@[k] == before[k]);
                }
            }
        }
        i = i + 1;
    }
    proof {
        assert forall|a: int, b: int| #![trigger res@[a], res@[b]] 0 <= a < b < res@.len() implies res@[a].end <= res@[b].start by {
            assert(found@[a].0 + byte_len(found@[a].1@) <= found@[b].0);
        }
    }
    res
}

/// Character positions give strictly growing byte offsets.
proof fn lemma_same_offset(line: Seq<char>, a: int, b: int)
    requires
        0 <= a <= line.len(),
        0 <= b <= line.len(),
        byte_len(line.take(a)) == byte_len(line.take(b)),
    ensures
        a == b,
{
    if a < b {
        crate::text::lemma_byte_len_strict(line, a, b);
    } else if b < a {
        crate::text::lemma_byte_len_strict(line, b, a);
    }
}

/// A run of URL characters in `line` that covers position `ci`, where a
/// run of `n` URL characters starts after a character no URL runs through
/// (or the start) and ends before one, and that runs on as far as they go,
/// is exactly that run.
proof fn lemma_run_is_whole(line: Seq<char>, m: Seq<char>, cj: int, ci: int, n: int)
    requires
        0 <= cj <= ci < cj + m.len(),
        cj + m.len() <= line.len(),
        line.subrange(cj, cj + m.len()) == m,
        forall|j: int| 0 <= j < m.len() ==> url_char(#[trigger] m[j]),
        cj + m.len() < line.len() ==> !url_char(line[cj + m.len()]),
        0 < n,
        ci + n < line.len(),
        forall|j: int| ci <= j < ci + n ==> url_char(#[trigger] line[j]),
        !url_char(line[ci + n]),
        ci == 0 || !url_char(line[ci - 1]),
    ensures
        cj == ci,
        m.len() == n,
{
    if cj < ci {
        assert(line[ci - 1] == line.subrange(cj, cj + m.len())[ci - 1 - cj]);
        assert(url_char(m[ci - 1 - cj]));
    }
    if m.len() > n {
        assert(line[ci + n] == line.subrange(cj, cj + m.len())[n]);
        assert(url_char(m[n]));
    }
    if m.len() < n {
        assert(url_char(line[ci + m.len()]));
    }
}

proof fn lemma_http_chars(t: Seq<char>)
    requires
        forall|j: int| 0 <= j < t.len() ==> url_char(#[trigger] t[j]),
    ensures
        forall|j: int| 0 <= j < 7 + t.len() ==> url_char(#[trigger] ("http://"@ + t)[j]),
{
    reveal_strlit("http://");
    assert forall|j: int| 0 <= j < 7 + t.len() implies url_char(#[trigger] ("http://"@ + t)[j]) by {
        if j >= 7 {
            assert(("http://"@ + t)[j] == t[j - 7]);
        }
    }
}

/// The match that covers a place where a URL can begin, with the character
/// it starts at.
proof fn lemma_covering_match(line: Seq<char>, ms: Seq<(usize, Seq<char>)>, ci: int) -> (r: (int, int))
    requires
        url_matches_found(line, ms),
        url_begins(line, ci),
    ensures
        0 <= r.0 < ms.len(),
        match_at(line, ms[r.0], r.1),
        r.1 <= ci < r.1 + ms[r.0].1.len(),
        forall|j: int| 0 <= j < ms[r.0].1.len() ==> url_char(#[trigger] ms[r.0].1[j]),
        r.1 + ms[r.0].1.len() < line.len() ==> !url_char(line[r.1 + ms[r.0].1.len()]),
{
    reveal(url_matches_found);
    let (k, cj) = choose|k: int, cj: int|
        0 <= k < ms.len() && #[trigger] match_at(line, ms[k], cj) && cj <= ci < cj + ms[k].1.len();
    assert(0 <= k < ms.len());
    let c2 = choose|c2: int|
        #[trigger] match_at(line, ms[k], c2) && url_begins(line, c2) && (forall|j: int|
            0 <= j < ms[k].1.len() ==> url_char(#[trigger] ms[k].1[j])) && (c2 + ms[k].1.len() < line.len()
            ==> !url_char(line[c2 + ms[k].1.len()]));
    lemma_same_offset(line, c2, cj);
    (k, cj)
}

/// A URL is found whole: in a line `p` + `http://` + `t` + ` ` + `rest`,
/// where `t` runs through URL characters only and does not end in trailing
/// punctuation, and `p` is empty or ends in a character no URL runs
/// through, the URLs found include `http://` + `t`, at the byte offset where
/// it stands.
pub proof fn law_whole_url_found(p: Seq<char>, t: Seq<char>, rest: Seq<char>, res: Seq<UrlMatch>)
    requires
        t.len() > 0,
        forall|j: int| 0 <= j < t.len() ==> url_char(#[trigger] t[j]),
        !is_url_trailer(t.last()),
        p.len() == 0 || !url_char(p.last()),
        urls_found(p + "http://"@ + t + seq![' '] + rest, res),
    ensures
        exists|k: int|
            0 <= k < res.len() && (#[trigger] res[k]).url@ == "http://"@ + t && res[k].start == byte_len(p)
                && res[k].end == byte_len(p) + byte_len("http://"@ + t),
{
    let u = "http://"@ + t;
    let line = p + "http://"@ + t + seq![' '] + rest;
    let ms = url_pattern_matches(line);
    let ci = p.len() as int;
    let n = u.len() as int;
    lemma_url_at(p, t, rest);
    let (k, cj) = lemma_covering_match(line, ms, ci);
    let m = ms[k].1;
    assert(line.subrange(cj, cj + m.len()) == m);
    lemma_run_is_whole(line, m, cj, ci, n);
    assert(m =~= u);
    assert(m.last() == t.last());
    assert(trim_url_end(m) == m);
    assert(line.take(ci) =~= p);
    assert(is_match_of(res[k], ms[k]));
}

/// The characters of such a line around the URL.
proof fn lemma_url_at(p: Seq<char>, t: Seq<char>, rest: Seq<char>)
    requires
        t.len() > 0,
        forall|j: int| 0 <= j < t.len() ==> url_char(#[trigger] t[j]),
        p.len() == 0 || !url_char(p.last()),
    ensures
        ({
            let u = "http://"@ + t;
            let line = p + "http://"@ + t + seq![' '] + rest;
            let ci = p.len() as int;
            let n = u.len() as int;
            &&& url_begins(line, ci)
            &&& n == 7 + t.len()
            &&& ci + n < line.len()
            &&& forall|j: int| ci <= j < ci + n ==> url_char(#[trigger] line[j])
            &&& !url_char(line[ci + n])
            &&& (ci == 0 || !url_char(line[ci - 1]))
            &&& line.subrange(ci, ci + n) == u
        }),
{
    reveal_strlit("http://");
    let u = "http://"@ + t;
    let line = p + "http://"@ + t + seq![' '] + rest;
    assert(line =~= p + u + seq![' '] + rest);
    let ci = p.len() as int;
    let n = u.len() as int;
    lemma_http_chars(t);
    assert(line.subrange(ci, ci + n) =~= u);
    assert(line.subrange(ci, ci + 7) =~= "http://"@);
    assert(line[ci + 7] == u[7]);
    assert forall|j: int| ci <= j < ci + n implies url_char(#[trigger] line[j]) by {
        assert(line[j] == u[j - ci]);
    }
    assert(line[ci + n] == ' ');
    assert(is_ws(' '));
    if ci > 0 {
        assert(line[ci - 1] == p.last());
    }
}

/// Check if a column position falls within any URL in the line: the first
/// URL with `start <= col < end`.
pub fn url_at_column(urls: &[UrlMatch], col: usize) -> (r: Option<&UrlMatch>)
    ensures
        match r {
            Some(u) => exists|i: int|
                0 <= i < urls@.len() && urls@[i] == *u && u.start <= col < u.end && forall|j: int|
                    0 <= j < i ==> !(#[trigger] urls@[j].start <= col < urls@[j].end),
            None => forall|i: int|
                0 <= i < urls@.len() ==> !(#[trigger] urls@[i].start <= col < urls@[i].end),
        },
{
    let mut i: usize = 0;
    while i < urls.len()
        invariant
            i <= urls@.len(),
            forall|j: int| 0 <= j < i ==> !(#[trigger] urls@[j].start <= col < urls@[j].end),
        decreases urls@.len() - i,
    {
        if urls[i].start <= col && col < urls[i].end {
            return Some(&urls[i]);
        }
        i = i + 1;
    }
    None
}

} // verus!
