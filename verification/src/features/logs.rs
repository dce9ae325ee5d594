//! Logs tab: how log lines are coloured and wrapped, where their URLs lie,
//! scrolling and selecting, and the sidebar of running processes.
use crate::common::{strip_ansi, stripped};
use crate::config::name_of;
use crate::keys::{KeyCode, MouseEvent, MouseEventKind};
use crate::url::{find_urls, url_at_column, url_of_match, url_pattern_matches};
use crate::config::{strs, Project, ProjectView};
use crate::engine::{ProcessManager, ProcessStatus, StatusView};
use crate::text::{byte_len, chars_between, chars_between_exec, chars_of, concat2, concat3, concat4, contains_seq, contains_str, copy_str, less_chars, seq_less, string_of};
use crate::unicode::{str_lower, to_lowercase};
use crate::url::UrlMatch;
use vstd::prelude::*;

verus! {

// ── colours ────────────────────────────────────────────────────────────────

/// The colour a log line is shown in.
#[derive(Clone, Copy, Debug, PartialEq, Eq, Structural)]
pub enum LogColor {
    DarkGray,
    Red,
    Green,
    Yellow,
    Cyan,
    White,
}

/// The colour of a log line (`content` without escapes, `original` as
/// logged): build progress is dimmed, errors red, successes green,
/// warnings yellow, info cyan; an otherwise plain line marked `[ERR]` is
/// red; anything else white.
pub open spec fn line_color(content: Seq<char>, original: Seq<char>) -> LogColor {
    let lower = str_lower(content);
    if contains_seq(lower, "compiling"@) || contains_seq(lower, "finished"@) || contains_seq(
        lower,
        "running"@,
    ) || contains_seq(lower, "building"@) {
        LogColor::DarkGray
    } else if contains_seq(lower, "error"@) || contains_seq(lower, "fail"@) || contains_seq(
        lower,
        "critical"@,
    ) || contains_seq(lower, "crashed"@) || contains_seq(lower, "panic"@) {
        LogColor::Red
    } else if contains_seq(lower, "success"@) || contains_seq(lower, "done"@) || contains_seq(
        lower,
        "ok"@,
    ) || contains_seq(lower, "completed"@) {
        LogColor::Green
    } else if contains_seq(lower, "warn"@) || contains_seq(lower, "warning"@) {
        LogColor::Yellow
    } else if contains_seq(lower, "info"@) || contains_seq(lower, "debug"@) {
        LogColor::Cyan
    } else if contains_seq(original, "[ERR]"@) {
        LogColor::Red
    } else {
        LogColor::White
    }
}

pub fn get_base_style(content: &str, original_full_line: &str) -> (r: LogColor)
    ensures
        r == line_color(content@, original_full_line@),
{
    let lc = chars_of(to_lowercase(content).as_str());
    let l = lc.as_slice();
    if contains_str(l, "compiling") || contains_str(l, "finished") || contains_str(l, "running")
        || contains_str(l, "building") {
        LogColor::DarkGray
    } else if contains_str(l, "error") || contains_str(l, "fail") || contains_str(l, "critical")
        || contains_str(l, "crashed") || contains_str(l, "panic") {
        LogColor::Red
    } else if contains_str(l, "success") || contains_str(l, "done") || contains_str(l, "ok")
        || contains_str(l, "completed") {
        LogColor::Green
    } else if contains_str(l, "warn") || contains_str(l, "warning") {
        LogColor::Yellow
    } else if contains_str(l, "info") || contains_str(l, "debug") {
        LogColor::Cyan
    } else if contains_str(chars_of(original_full_line).as_slice(), "[ERR]") {
        LogColor::Red
    } else {
        LogColor::White
    }
}

// ── URLs in wrapped segments ───────────────────────────────────────────────

/// `a - b`, or 0 when `b` is larger.
pub open spec fn sat_sub(a: usize, b: usize) -> usize {
    if a >= b {
        (a - b) as usize
    } else {
        0
    }
}

/// A URL of a line as it falls in the segment of `seg_len` columns that
/// starts at column `offset`: its columns relative to the segment, clipped
/// to it; `None` when no part of it is in the segment.
pub open spec fn url_in_segment(u: UrlMatch, offset: usize, seg_len: usize) -> Option<(Seq<char>, usize, usize)> {
    let s = sat_sub(u.start, offset);
    let e = sat_sub(u.end, offset);
    let ce = if e <= seg_len {
        e
    } else {
        seg_len
    };
    if s < seg_len && s < ce {
        Some((u.url@, s, ce))
    } else {
        None
    }
}

/// The URLs of `urls` that fall in the segment, in order.
pub open spec fn urls_in_segment(urls: Seq<UrlMatch>, offset: usize, seg_len: usize) -> Seq<(Seq<char>, usize, usize)>
    decreases urls.len(),
{
    if urls.len() == 0 {
        Seq::empty()
    } else {
        let r = urls_in_segment(urls.drop_last(), offset, seg_len);
        match url_in_segment(urls.last(), offset, seg_len) {
            Some(m) => r.push(m),
            None => r,
        }
    }
}

pub open spec fn match_views(v: Seq<UrlMatch>) -> Seq<(Seq<char>, usize, usize)> {
    v.map_values(|u: UrlMatch| (u.url@, u.start, u.end))
}

/// Remap URL positions for a wrapped segment starting at `offset` with
/// length `seg_len`.
pub fn remap_urls(urls: &[UrlMatch], offset: usize, seg_len: usize) -> (r: Vec<UrlMatch>)
    ensures
        match_views(r@) == urls_in_segment(urls@, offset, seg_len),
{
    let mut r: Vec<UrlMatch> = Vec::new();
    let mut i: usize = 0;
    while i < urls.len()
        invariant
            i <= urls@.len(),
            match_views(r@) == urls_in_segment(urls@.take(i as int), offset, seg_len),
        decreases urls@.len() - i,
    {
        proof {
            assert(urls@.take(i + 1).drop_last() =~= urls@.take(i as int));
            assert(urls@.take(i + 1).last() == urls@[i as int]);
        }
        let u = &urls[i];
        let s = u.start.saturating_sub(offset);
        let e = u.end.saturating_sub(offset);
        let ce = if e <= seg_len {
            e
        } else {
            seg_len
        };
        if s < seg_len && s < ce {
            let ghost before = match_views(r@);
            r.push(UrlMatch { url: u.url.clone(), start: s, end: ce });
            assert(match_views(r@) =~= before.push((u.url@, s, ce)));
        }
        i = i + 1;
    }
    assert(urls@.take(urls@.len() as int) =~= urls@);
    r
}

// ── the processed-log cache ────────────────────────────────────────────────

/// A log line ready to show: a wrapped segment of log line `orig_idx`.
#[derive(Clone, Debug)]
pub struct ProcessedLine {
    pub orig_idx: usize,
    pub content: String,
    pub color: LogColor,
    pub urls: Vec<UrlMatch>,
}

/// The processed lines of one process's log, as last computed.
#[derive(Clone, Debug)]
pub struct SharedLogCache {
    pub project_id: String,
    pub width: usize,
    pub logs_len: usize,
    pub processing_rev: u64,
    pub lines: Vec<ProcessedLine>,
    /// Maps screen row -> original log index.
    pub line_map: Vec<usize>,
    /// Whether a recomputation is under way.
    pub processing: bool,
}

impl SharedLogCache {
    pub fn new() -> (r: Self)
        ensures
            r.project_id@.len() == 0,
            r.width == 0,
            r.logs_len == 0,
            r.processing_rev == 0,
            r.lines@.len() == 0,
            r.line_map@.len() == 0,
            !r.processing,
    {
        SharedLogCache {
            project_id: String::new(),
            width: 0,
            logs_len: 0,
            processing_rev: 0,
            lines: Vec::new(),
            line_map: Vec::new(),
            processing: false,
        }
    }

    /// The cache holds the finished result for this process, width, log
    /// length and revision.
    pub fn is_valid(&self, project_id: &str, width: usize, logs_len: usize, rev: u64) -> (r: bool)
        ensures
            r == (self.project_id@ == project_id@ && self.width == width && self.logs_len == logs_len
                && self.processing_rev == rev && !self.processing),
    {
        crate::text::seq_eq(chars_of(self.project_id.as_str()).as_slice(), chars_of(project_id).as_slice())
            && self.width == width && self.logs_len == logs_len && self.processing_rev == rev
            && !self.processing
    }
}

// ── wrapping a log for the view ────────────────────────────────────────────

/// A URL triple as it falls in a segment (see `url_in_segment`).
pub open spec fn clip_url(t: (Seq<char>, usize, usize), offset: usize, seg_len: usize) -> Option<(Seq<char>, usize, usize)> {
    let s = sat_sub(t.1, offset);
    let e = sat_sub(t.2, offset);
    let ce = if e <= seg_len {
        e
    } else {
        seg_len
    };
    if s < seg_len && s < ce {
        Some((t.0, s, ce))
    } else {
        None
    }
}

/// The URL triples of `ts` that fall in the segment, in order.
pub open spec fn clip_urls(ts: Seq<(Seq<char>, usize, usize)>, offset: usize, seg_len: usize) -> Seq<(Seq<char>, usize, usize)>
    decreases ts.len(),
{
    if ts.len() == 0 {
        Seq::empty()
    } else {
        let r = clip_urls(ts.drop_last(), offset, seg_len);
        match clip_url(ts.last(), offset, seg_len) {
            Some(m) => r.push(m),
            None => r,
        }
    }
}

proof fn lemma_clip_urls(us: Seq<UrlMatch>, offset: usize, seg_len: usize)
    ensures
        urls_in_segment(us, offset, seg_len) == clip_urls(match_views(us), offset, seg_len),
    decreases us.len(),
{
    if us.len() > 0 {
        lemma_clip_urls(us.drop_last(), offset, seg_len);
        assert(match_views(us.drop_last()) =~= match_views(us).drop_last());
    }
}

/// The URLs of a line as `find_urls` reports them: text, start and end.
pub open spec fn line_url_views(line: Seq<char>) -> Seq<(Seq<char>, usize, usize)> {
    url_pattern_matches(line).map_values(
        |m: (usize, Seq<char>)| (url_of_match(m).0, url_of_match(m).1 as usize, url_of_match(m).2 as usize),
    )
}

/// A row of the log view: the log line it comes from, its text, its colour
/// and its URLs (columns relative to the row).
pub type LogRow = (usize, Seq<char>, LogColor, Seq<(Seq<char>, usize, usize)>);

pub open spec fn row_views(v: Seq<ProcessedLine>) -> Seq<LogRow> {
    v.map_values(|l: ProcessedLine| (l.orig_idx, l.content@, l.color, match_views(l.urls@)))
}

/// The rows of log line `raw` (number `idx`) at `width` bytes: its text
/// without escapes, wrapped, each row in the line's colour and with the
/// line's URLs that fall in it (none on a piece cut from an over-long
/// word); an empty line is one empty white row.
pub open spec fn line_rows(raw: Seq<char>, idx: usize, width: nat) -> Seq<LogRow> {
    let clean = stripped(raw);
    if clean.len() == 0 {
        seq![(idx, Seq::<char>::empty(), LogColor::White, Seq::<(Seq<char>, usize, usize)>::empty())]
    } else {
        crate::features::wrap::wrapped(clean, width).map_values(
            |g: crate::features::wrap::Segment|
                (
                    idx,
                    g.0,
                    line_color(clean, raw),
                    if g.2 {
                        clip_urls(line_url_views(clean), g.1 as usize, byte_len(g.0) as usize)
                    } else {
                        Seq::empty()
                    },
                ),
        )
    }
}

/// The texts of log rows, one after another.
pub open spec fn row_text(rows: Seq<LogRow>) -> Seq<char>
    decreases rows.len(),
{
    if rows.len() == 0 {
        Seq::empty()
    } else {
        row_text(rows.drop_last()) + rows.last().1
    }
}

proof fn lemma_row_text_of_segments(segs: Seq<crate::features::wrap::Segment>, raw: Seq<char>, idx: usize)
    ensures
        row_text(
            segs.map_values(
                |g: crate::features::wrap::Segment|
                    (
                        idx,
                        g.0,
                        line_color(stripped(raw), raw),
                        if g.2 {
                            clip_urls(line_url_views(stripped(raw)), g.1 as usize, byte_len(g.0) as usize)
                        } else {
                            Seq::empty()
                        },
                    ),
            ),
        ) == crate::features::wrap::seg_text(segs),
    decreases segs.len(),
{
    let f = |g: crate::features::wrap::Segment|
        (
            idx,
            g.0,
            line_color(stripped(raw), raw),
            if g.2 {
                clip_urls(line_url_views(stripped(raw)), g.1 as usize, byte_len(g.0) as usize)
            } else {
                Seq::empty()
            },
        );
    if segs.len() > 0 {
        lemma_row_text_of_segments(segs.drop_last(), raw, idx);
        assert(segs.map_values(f).drop_last() =~= segs.drop_last().map_values(f));
    }
}

/// The rows of a log line each hold at most `width` bytes (or are one
/// character where not even one fits), and one after another they give
/// back the line without its escape sequences.
pub proof fn law_line_rows_fit_and_rejoin(raw: Seq<char>, idx: usize, width: nat)
    ensures
        row_text(line_rows(raw, idx, width)) == stripped(raw),
        forall|i: int|
            0 <= i < line_rows(raw, idx, width).len() ==> crate::features::wrap::row_fits(
                (#[trigger] line_rows(raw, idx, width)[i]).1,
                width,
            ),
{
    let clean = stripped(raw);
    let rows = line_rows(raw, idx, width);
    if clean.len() == 0 {
        assert(rows.drop_last() =~= Seq::<LogRow>::empty());
        assert(row_text(Seq::<LogRow>::empty()) == Seq::<char>::empty());
        assert(row_text(rows) =~= Seq::<char>::empty());
        assert(clean =~= Seq::<char>::empty());
        assert(byte_len(rows[0].1) == 0);
    } else {
        crate::features::wrap::law_wrapped_rows_fit_and_rejoin(clean, width);
        let segs = crate::features::wrap::wrapped(clean, width);
        lemma_row_text_of_segments(segs, raw, idx);
        assert forall|i: int| 0 <= i < rows.len() implies crate::features::wrap::row_fits((#[trigger] rows[i]).1, width) by {
            assert(rows[i].1 == segs[i].0);
        }
    }
}

/// The rows of the log lines `raws`, line after line.
pub open spec fn log_rows(raws: Seq<Seq<char>>, width: nat) -> Seq<LogRow>
    decreases raws.len(),
{
    if raws.len() == 0 {
        Seq::empty()
    } else {
        log_rows(raws.drop_last(), width) + line_rows(raws.last(), (raws.len() - 1) as usize, width)
    }
}

/// Process raw log lines: strip ANSI, word-wrap, detect URLs, compute
/// colours. Returns the rows and, for each row, the number of the log line
/// it shows.
pub fn process_logs(raw_logs: &[String], width: usize) -> (r: (Vec<ProcessedLine>, Vec<usize>))
    ensures
        log_rows(strs(raw_logs@), width as nat) == row_views(r.0@),
        r.1@ == row_views(r.0@).map_values(|row: LogRow| row.0),
{
    let ghost raws = strs(raw_logs@);
    let mut lines: Vec<ProcessedLine> = Vec::new();
    let mut line_map: Vec<usize> = Vec::new();
    let mut i: usize = 0;
    proof {
        assert(raws.take(0) =~= Seq::<Seq<char>>::empty());
        assert(row_views(lines@) =~= Seq::<LogRow>::empty());
    }
    while i < raw_logs.len()
        invariant
            i <= raw_logs@.len(),
            raws == strs(raw_logs@),
            log_rows(raws.take(i as int), width as nat) == row_views(lines@),
            line_map@ == row_views(lines@).map_values(|row: LogRow| row.0),
        decreases raw_logs@.len() - i,
    {
        proof {
            let t = raws.take(i + 1);
            assert(t.drop_last() =~= raws.take(i as int));
            assert(t.last() == raws[i as int]);
            assert(raws[i as int] == raw_logs@[i as int]@);
        }
        let raw = raw_logs[i].as_str();
        let clean = strip_ansi(raw);
        let cs = chars_of(clean.as_str());
        let _total = crate::text::str_byte_len(clean.as_str());
        let ghost before = lines@;
        if cs.len() == 0 {
            lines.push(ProcessedLine { orig_idx: i, content: String::new(), color: LogColor::White, urls: Vec::new() });
            line_map.push(i);
            proof {
                assert(match_views(Seq::<UrlMatch>::empty()) =~= Seq::<(Seq<char>, usize, usize)>::empty());
                assert(row_views(lines@) =~= row_views(before) + line_rows(raws[i as int], i, width as nat));
                assert(line_map@ =~= row_views(lines@).map_values(|row: LogRow| row.0));
            }
        } else {
            let urls = find_urls(clean.as_str());
            let color = get_base_style(clean.as_str(), raw);
            proof {
                assert(match_views(urls@) =~= line_url_views(clean@));
            }
            {
                {
                    let segs = crate::features::wrap::line_segments(cs.as_slice(), width);
                    let ghost sv = crate::features::wrap::seg_views(segs@);
                    let ghost rows = line_rows(raws[i as int], i, width as nat);
                    let mut k: usize = 0;
                    let ghost base = lines@;
                    while k < segs.len()
                        invariant
                            k <= segs@.len(),
                            sv == crate::features::wrap::seg_views(segs@),
                            rows.len() == sv.len(),
                            forall|j: int| 0 <= j < sv.len() ==> #[trigger] rows[j] == (
                                i,
                                sv[j].0,
                                line_color(clean@, raw@),
                                if sv[j].2 {
                                    clip_urls(line_url_views(clean@), sv[j].1 as usize, byte_len(sv[j].0) as usize)
                                } else {
                                    Seq::empty()
                                },
                            ),
                            color == line_color(clean@, raw@),
                            match_views(urls@) == line_url_views(clean@),
                            row_views(lines@) == row_views(base) + rows.take(k as int),
                            line_map@ == row_views(lines@).map_values(|row: LogRow| row.0),
                        decreases segs@.len() - k,
                    {
                        let seg = &segs[k];
                        let content = crate::text::string_of(seg.0.as_slice());
                        let seg_len = crate::text::str_byte_len(content.as_str());
                        let us = if seg.2 {
                            let r = remap_urls(urls.as_slice(), seg.1, seg_len);
                            proof {
                                lemma_clip_urls(urls@, seg.1, seg_len);
                            }
                            r
                        } else {
                            let e: Vec<UrlMatch> = Vec::new();
                            assert(match_views(e@) =~= Seq::<(Seq<char>, usize, usize)>::empty());
                            e
                        };
                        let ghost prev = lines@;
                        let ghost pm = line_map@;
                        lines.push(ProcessedLine { orig_idx: i, content, color, urls: us });
                        line_map.push(i);
                        proof {
                            assert(sv[k as int] == (seg.0@, seg.1 as nat, seg.2));
                            assert(seg_len == byte_len(sv[k as int].0));
                            assert(sv[k as int].1 as usize == seg.1);
                            assert(match_views(us@) == if sv[k as int].2 {
                                clip_urls(line_url_views(clean@), sv[k as int].1 as usize, byte_len(sv[k as int].0) as usize)
                            } else {
                                Seq::<(Seq<char>, usize, usize)>::empty()
                            });
                            assert(rows.take(k + 1) =~= rows.take(k as int).push(rows[k as int]));
                            assert(row_views(lines@) =~= row_views(prev).push(rows[k as int]));
                            assert(line_map@ =~= row_views(lines@).map_values(|row: LogRow| row.0));
                        }
                        k = k + 1;
                    }
                    assert(rows.take(rows.len() as int) =~= rows);
                }
            }
        }
        i = i + 1;
    }
    assert(raws.take(raw_logs@.len() as int) =~= raws);
    (lines, line_map)
}

/// A request to the log processor.
#[derive(Clone, Debug)]
pub enum ProcessorCommand {
    /// Re-process the given log lines for the given project/width.
    /// `rev` is the engine's log revision at capture time, used for cache validity.
    Process { project_id: String, width: usize, logs: Vec<String>, rev: u64 },
}

/// The request the processor serves from a burst: the newest one. Bursts
/// of new log lines queue a request each; only the last needs computing.
pub fn newest_command(first: ProcessorCommand, queued: Vec<ProcessorCommand>) -> (r: ProcessorCommand)
    ensures
        r == (if queued@.len() == 0 {
            first
        } else {
            queued@.last()
        }),
{
    let mut latest = first;
    let mut q = queued;
    let ghost orig = q@;
    if q.len() > 0 {
        let n = q.len();
        latest = q.remove(n - 1);
        assert(latest == orig.last());
    }
    latest
}

impl SharedLogCache {
    /// Mark a recomputation for revision `rev` under way: the cache is stale
    /// until it is stored.
    pub fn begin_processing(&mut self, rev: u64)
        ensures
            final(self).processing,
            final(self).processing_rev == rev,
            final(self).project_id == old(self).project_id,
            final(self).width == old(self).width,
            final(self).logs_len == old(self).logs_len,
            final(self).lines == old(self).lines,
            final(self).line_map == old(self).line_map,
    {
        self.processing = true;
        self.processing_rev = rev;
    }

    /// Store a finished recomputation of `logs_len` lines of `project_id` at
    /// `width` and revision `rev`.
    pub fn store(
        &mut self,
        project_id: String,
        width: usize,
        logs_len: usize,
        rev: u64,
        lines: Vec<ProcessedLine>,
        line_map: Vec<usize>,
    )
        ensures
            final(self).project_id == project_id,
            final(self).width == width,
            final(self).logs_len == logs_len,
            final(self).processing_rev == rev,
            final(self).lines == lines,
            final(self).line_map == line_map,
            !final(self).processing,
            final(self).is_valid_for(project_id@, width, logs_len, rev),
    {
        self.project_id = project_id;
        self.width = width;
        self.logs_len = logs_len;
        self.processing_rev = rev;
        self.lines = lines;
        self.line_map = line_map;
        self.processing = false;
    }

    pub open spec fn is_valid_for(&self, project_id: Seq<char>, width: usize, logs_len: usize, rev: u64) -> bool {
        self.project_id@ == project_id && self.width == width && self.logs_len == logs_len
            && self.processing_rev == rev && !self.processing
    }
}

// ── the model ──────────────────────────────────────────────────────────────

/// A rectangle of terminal cells.
#[derive(Clone, Copy, Debug, PartialEq, Eq, Structural)]
pub struct Area {
    pub x: u16,
    pub y: u16,
    pub width: u16,
    pub height: u16,
}

pub struct LogsModel {
    pub log_sidebar_index: usize,
    pub log_scroll: u16,
    pub auto_scroll_logs: bool,
    pub selection_start: Option<usize>,
    pub selection_end: Option<usize>,
    // What the last render showed, for mapping the mouse.
    pub last_log_area: Area,
    pub last_rendered_scroll: usize,
    pub last_logs_len: usize,
    /// Maps screen row index to original log index.
    pub last_line_map: Vec<usize>,
    // The render cache.
    pub cache_project_id: String,
    pub cache_width: usize,
    pub cache_logs_len: usize,
    // The last request sent to the processor (dedupes per-frame resends).
    pub req_rev: u64,
    pub req_project_id: String,
    pub req_width: usize,
    pub cache_wrapped: Vec<(usize, String, LogColor)>,
    /// (wrapped line index, its URLs)
    pub cache_urls: Vec<(usize, Vec<UrlMatch>)>,
}

impl LogsModel {
    pub fn new() -> (m: Self)
        ensures
            m.log_sidebar_index == 1,
            m.log_scroll == 0,
            m.auto_scroll_logs,
            m.selection_start.is_none(),
            m.selection_end.is_none(),
            m.last_log_area == (Area { x: 0, y: 0, width: 0, height: 0 }),
            m.last_rendered_scroll == 0,
            m.last_logs_len == 0,
            m.last_line_map@.len() == 0,
            m.cache_project_id@.len() == 0,
            m.cache_width == 0,
            m.cache_logs_len == 0,
            m.req_rev == 0,
            m.req_project_id@.len() == 0,
            m.req_width == 0,
            m.cache_wrapped@.len() == 0,
            m.cache_urls@.len() == 0,
    {
        LogsModel {
            log_sidebar_index: 1,
            log_scroll: 0,
            auto_scroll_logs: true,
            selection_start: None,
            selection_end: None,
            last_log_area: Area { x: 0, y: 0, width: 0, height: 0 },
            last_rendered_scroll: 0,
            last_logs_len: 0,
            last_line_map: Vec::new(),
            cache_project_id: String::new(),
            cache_width: 0,
            cache_logs_len: 0,
            req_rev: 0,
            req_project_id: String::new(),
            req_width: 0,
            cache_wrapped: Vec::new(),
            cache_urls: Vec::new(),
        }
    }

    /// One line down; at (or on reaching) the bottom the view follows new
    /// output again.
    pub fn scroll_down(&mut self, max_scroll: u16)
        ensures
            render_state_kept(*old(self), *final(self)),
            final(self).log_scroll == if old(self).log_scroll >= max_scroll {
                old(self).log_scroll
            } else {
                (old(self).log_scroll + 1) as u16
            },
            final(self).auto_scroll_logs == (old(self).auto_scroll_logs || old(self).log_scroll + 1
                >= max_scroll),
            final(self).log_sidebar_index == old(self).log_sidebar_index,
            final(self).selection_start == old(self).selection_start,
            final(self).selection_end == old(self).selection_end,
    {
        if self.log_scroll >= max_scroll {
            self.auto_scroll_logs = true;
        } else {
            self.log_scroll = self.log_scroll.saturating_add(1);
            if self.log_scroll >= max_scroll {
                self.auto_scroll_logs = true;
            }
        }
    }

    /// One line up; the view stops following new output.
    pub fn scroll_up(&mut self)
        ensures
            render_state_kept(*old(self), *final(self)),
            final(self).log_scroll == if old(self).log_scroll > 0 {
                (old(self).log_scroll - 1) as u16
            } else {
                0
            },
            !final(self).auto_scroll_logs,
            final(self).log_sidebar_index == old(self).log_sidebar_index,
            final(self).selection_start == old(self).selection_start,
            final(self).selection_end == old(self).selection_end,
    {
        self.log_scroll = self.log_scroll.saturating_sub(1);
        self.auto_scroll_logs = false;
    }

    pub fn scroll_to_bottom(&mut self, max_scroll: u16)
        ensures
            render_state_kept(*old(self), *final(self)),
            final(self).log_scroll == max_scroll,
            final(self).auto_scroll_logs,
            final(self).log_sidebar_index == old(self).log_sidebar_index,
            final(self).selection_start == old(self).selection_start,
            final(self).selection_end == old(self).selection_end,
    {
        self.log_scroll = max_scroll;
        self.auto_scroll_logs = true;
    }

    pub fn scroll_to_top(&mut self)
        ensures
            render_state_kept(*old(self), *final(self)),
            final(self).log_scroll == 0,
            !final(self).auto_scroll_logs,
            final(self).log_sidebar_index == old(self).log_sidebar_index,
            final(self).selection_start == old(self).selection_start,
            final(self).selection_end == old(self).selection_end,
    {
        self.log_scroll = 0;
        self.auto_scroll_logs = false;
    }

    pub fn clear_selection(&mut self)
        ensures
            render_state_kept(*old(self), *final(self)),
            final(self).selection_start.is_none(),
            final(self).selection_end.is_none(),
            final(self).log_scroll == old(self).log_scroll,
            final(self).auto_scroll_logs == old(self).auto_scroll_logs,
            final(self).log_sidebar_index == old(self).log_sidebar_index,
    {
        self.selection_start = None;
        self.selection_end = None;
    }
}

// ── URLs within a shown line ───────────────────────────────────────────────

/// The byte range of each URL match.
pub open spec fn url_ranges(urls: Seq<UrlMatch>) -> Seq<(nat, nat)> {
    urls.map_values(|u: UrlMatch| (u.start as nat, u.end as nat))
}

pub open spec fn nat_min(a: nat, b: nat) -> nat {
    if a <= b {
        a
    } else {
        b
    }
}

/// `content` cut into the pieces a shown line is drawn from, from byte
/// `cursor` on, for the URL ranges `rs` left to right: the text before a URL
/// (when the URL starts after the cursor and that text is not empty), then
/// the URL itself (marked `true`), its end (within the line) becoming the
/// cursor; after the last URL, the rest of the line when any is left.
pub open spec fn url_segments_from(content: Seq<char>, rs: Seq<(nat, nat)>, cursor: nat) -> Seq<(Seq<char>, bool)>
    decreases rs.len(),
{
    let len = byte_len(content);
    if rs.len() == 0 {
        if cursor < len {
            seq![(chars_between(content, cursor, len), false)]
        } else {
            Seq::empty()
        }
    } else {
        let (start, end) = rs[0];
        let url_end = nat_min(end, len);
        let before = chars_between(content, cursor, nat_min(start, len));
        let lead: Seq<(Seq<char>, bool)> = if start > cursor && before.len() > 0 {
            seq![(before, false)]
        } else {
            Seq::empty()
        };
        lead + seq![(chars_between(content, start, url_end), true)] + url_segments_from(content, rs.drop_first(), url_end)
    }
}

pub open spec fn segment_views(v: Seq<(String, bool)>) -> Seq<(Seq<char>, bool)> {
    v.map_values(|p: (String, bool)| (p.0@, p.1))
}

/// The pieces of a shown line: plain text and, marked `true`, the URLs its
/// matches cover (offsets past the end of the line count as its end).
pub fn url_segments(content: &str, urls: &[UrlMatch]) -> (r: Vec<(String, bool)>)
    ensures
        segment_views(r@) == url_segments_from(content@, url_ranges(urls@), 0),
{
    let cs = chars_of(content);
    let len = crate::text::str_byte_len(content);
    let ghost c = content@;
    let ghost rs = url_ranges(urls@);
    let mut out: Vec<(String, bool)> = Vec::new();
    let mut cursor: usize = 0;
    let mut i: usize = 0;
    assert(rs.skip(0) =~= rs);
    assert(segment_views(out@) + url_segments_from(c, rs, 0) =~= url_segments_from(c, rs, 0));
    while i < urls.len()
        invariant
            i <= urls@.len(),
            cs@ == c,
            len == byte_len(c),
            cursor <= len,
            rs == url_ranges(urls@),
            segment_views(out@) + url_segments_from(c, rs.skip(i as int), cursor as nat)
                == url_segments_from(c, rs, 0),
        decreases urls@.len() - i,
    {
        let ghost before_out = segment_views(out@);
        let ghost cur = cursor as nat;
        let start = urls[i].start;
        let end = urls[i].end;
        let stop = if start < len { start } else { len };
        let url_end = if end < len { end } else { len };
        proof {
            assert(rs.skip(i as int)[0] == (start as nat, end as nat));
            assert(rs.skip(i as int).drop_first() =~= rs.skip(i + 1));
        }
        if start > cursor {
            let before = chars_between_exec(cs.as_slice(), cursor, stop);
            if before.len() > 0 {
                out.push((string_of(before.as_slice()), false));
            }
        }
        let text = chars_between_exec(cs.as_slice(), start, url_end);
        out.push((string_of(text.as_slice()), true));
        proof {
            let before = chars_between(c, cur, nat_min(start as nat, len as nat));
            let lead: Seq<(Seq<char>, bool)> = if start > cur && before.len() > 0 {
                seq![(before, false)]
            } else {
                Seq::empty()
            };
            assert(segment_views(out@) =~= before_out + lead + seq![(chars_between(c, start as nat, url_end as nat), true)]);
        }
        cursor = url_end;
        i = i + 1;
    }
    assert(rs.skip(i as int).len() == 0);
    if cursor < len {
        let rest = chars_between_exec(cs.as_slice(), cursor, len);
        let ghost before_out = segment_views(out@);
        out.push((string_of(rest.as_slice()), false));
        assert(segment_views(out@) =~= before_out + seq![(chars_between(c, cursor as nat, len as nat), false)]);
    } else {
        assert(segment_views(out@) =~= segment_views(out@) + Seq::<(Seq<char>, bool)>::empty());
    }
    out
}

// ── what a frame of the log view shows ─────────────────────────────────────

/// Where the lines of a log frame come from.
#[derive(Clone, Copy, Debug, PartialEq, Eq, Structural)]
pub enum LogFrame {
    /// The processor's finished result for the current log.
    Processed,
    /// The previous frame's wrapped lines, while the processor catches up.
    Stale,
    /// The raw lines, unwrapped: nothing was processed for this log yet.
    Raw,
}

/// The scroll offset when `total` lines are shown in `height` rows: the
/// bottom when following new output, else the kept offset, no further down
/// than the bottom.
pub open spec fn frame_scroll(auto: bool, log_scroll: u16, total: usize, height: u16) -> u16 {
    let max = (if total >= height {
        total - height
    } else {
        0
    }) as u16;
    if auto {
        max
    } else if log_scroll <= max {
        log_scroll
    } else {
        max
    }
}

/// The selected rows, lowest first; `(usize::MAX, usize::MAX)` when nothing
/// is selected.
pub open spec fn selection_bounds(start: Option<usize>, end: Option<usize>) -> (usize, usize) {
    match (start, end) {
        (Some(s), Some(e)) => if s < e {
            (s, e)
        } else {
            (e, s)
        },
        _ => (usize::MAX, usize::MAX),
    }
}

fn copy_matches(v: &Vec<UrlMatch>) -> (r: Vec<UrlMatch>)
    ensures
        match_views(r@) == match_views(v@),
{
    let mut r: Vec<UrlMatch> = Vec::new();
    let mut i: usize = 0;
    while i < v.len()
        invariant
            i <= v@.len(),
            match_views(r@) == match_views(v@.take(i as int)),
        decreases v@.len() - i,
    {
        let u = &v[i];
        let ghost before = r@;
        let m = UrlMatch { url: crate::text::copy_str(u.url.as_str()), start: u.start, end: u.end };
        assert((m.url@, m.start, m.end) == (v@[i as int].url@, v@[i as int].start, v@[i as int].end));
        r.push(m);
        assert(r@ =~= before.push(m));
        assert(match_views(r@) =~= match_views(before).push((m.url@, m.start, m.end)));
        assert(v@.take(i + 1) =~= v@.take(i as int).push(v@[i as int]));
        assert(match_views(v@.take(i + 1)) =~= match_views(v@.take(i as int)).push((v@[i as int].url@, v@[i as int].start, v@[i as int].end)));
        i = i + 1;
    }
    assert(v@.take(v@.len() as int) =~= v@);
    r
}

impl LogsModel {
    /// The selected rows, lowest first.
    pub fn selected_rows(&self) -> (r: (usize, usize))
        ensures
            r == selection_bounds(self.selection_start, self.selection_end),
    {
        match (self.selection_start, self.selection_end) {
            (Some(s), Some(e)) => if s < e {
                (s, e)
            } else {
                (e, s)
            },
            _ => (usize::MAX, usize::MAX),
        }
    }

    fn set_scroll(&mut self, total: usize, height: u16)
        ensures
            final(self).log_scroll == frame_scroll(old(self).auto_scroll_logs, old(self).log_scroll, total, height),
            final(self).last_rendered_scroll == final(self).log_scroll as usize,
            final(self).auto_scroll_logs == old(self).auto_scroll_logs,
            final(self).log_sidebar_index == old(self).log_sidebar_index,
            final(self).selection_start == old(self).selection_start,
            final(self).selection_end == old(self).selection_end,
            final(self).last_log_area == old(self).last_log_area,
            final(self).last_logs_len == old(self).last_logs_len,
            final(self).last_line_map == old(self).last_line_map,
            final(self).cache_project_id == old(self).cache_project_id,
            final(self).cache_width == old(self).cache_width,
            final(self).cache_logs_len == old(self).cache_logs_len,
            final(self).req_rev == old(self).req_rev,
            final(self).req_project_id == old(self).req_project_id,
            final(self).req_width == old(self).req_width,
            final(self).cache_wrapped == old(self).cache_wrapped,
            final(self).cache_urls == old(self).cache_urls,
    {
        let h = height as usize;
        let below: usize = if total >= h {
            total - h
        } else {
            0
        };
        let max = below as u16;
        let pos = if self.auto_scroll_logs {
            max
        } else if self.log_scroll <= max {
            self.log_scroll
        } else {
            max
        };
        self.log_scroll = pos;
        self.last_rendered_scroll = pos as usize;
    }

    /// Decide a frame of the log of `project_id` (`logs_len` lines at
    /// revision `rev`) in a view `width` wide and `height` high, given the
    /// processor's cache: show the processed lines when the cache holds them
    /// (and keep a copy for later frames), else the previous frame's lines
    /// when they were for this log and width, else the raw lines. The second
    /// result says whether to ask the processor for this log, width and
    /// revision: only when that request was not the last one made.
    pub fn plan_frame(
        &mut self,
        project_id: &str,
        width: usize,
        height: u16,
        logs_len: usize,
        rev: u64,
        cache: &SharedLogCache,
    ) -> (r: (LogFrame, bool))
        ensures
            final(self).log_sidebar_index == old(self).log_sidebar_index,
            final(self).selection_start == old(self).selection_start,
            final(self).selection_end == old(self).selection_end,
            final(self).auto_scroll_logs == old(self).auto_scroll_logs,
            final(self).last_log_area == old(self).last_log_area,
            final(self).last_rendered_scroll == final(self).log_scroll as usize,
            cache.is_valid_for(project_id@, width, logs_len, rev) ==> {
                &&& r == (LogFrame::Processed, false)
                &&& final(self).log_scroll == frame_scroll(old(self).auto_scroll_logs, old(self).log_scroll, cache.lines@.len() as usize, height)
                &&& final(self).last_logs_len == cache.lines@.len()
                &&& final(self).last_line_map@ == cache.line_map@
                &&& final(self).cache_project_id@ == project_id@
                &&& final(self).cache_width == width
                &&& final(self).cache_logs_len == logs_len
                &&& final(self).cache_wrapped@.len() == cache.lines@.len()
                &&& forall|i: int| 0 <= i < cache.lines@.len() ==> {
                    &&& (#[trigger] final(self).cache_wrapped@[i]).0 == cache.lines@[i].orig_idx
                    &&& final(self).cache_wrapped@[i].1@ == cache.lines@[i].content@
                    &&& final(self).cache_wrapped@[i].2 == cache.lines@[i].color
                }
                &&& final(self).cache_urls@.len() == cache.lines@.len()
                &&& forall|i: int| 0 <= i < cache.lines@.len() ==> (#[trigger] final(self).cache_urls@[i]).0 == i
                    && match_views(final(self).cache_urls@[i].1@) == match_views(cache.lines@[i].urls@)
                &&& final(self).req_rev == old(self).req_rev
                &&& final(self).req_project_id == old(self).req_project_id
                &&& final(self).req_width == old(self).req_width
            },
            !cache.is_valid_for(project_id@, width, logs_len, rev) ==> {
                let ask = old(self).req_rev != rev || old(self).req_project_id@ != project_id@ || old(self).req_width != width;
                let stale = old(self).cache_project_id@ == project_id@ && old(self).cache_width == width
                    && old(self).cache_logs_len > 0;
                &&& r == (if stale { LogFrame::Stale } else { LogFrame::Raw }, ask)
                &&& (ask ==> final(self).req_rev == rev && final(self).req_project_id@ == project_id@
                    && final(self).req_width == width)
                &&& (!ask ==> final(self).req_rev == old(self).req_rev && final(self).req_project_id == old(self).req_project_id
                    && final(self).req_width == old(self).req_width)
                &&& final(self).log_scroll == frame_scroll(old(self).auto_scroll_logs, old(self).log_scroll, logs_len, height)
                &&& final(self).last_logs_len == logs_len
                &&& final(self).cache_wrapped == old(self).cache_wrapped
                &&& final(self).cache_urls == old(self).cache_urls
                &&& (stale ==> final(self).last_line_map == old(self).last_line_map
                    && final(self).cache_project_id == old(self).cache_project_id
                    && final(self).cache_width == old(self).cache_width
                    && final(self).cache_logs_len == old(self).cache_logs_len)
                &&& (!stale ==> final(self).last_line_map@.len() == logs_len && (forall|i: int| 0 <= i < logs_len ==> #[trigger] final(self).last_line_map@[i] == i)
                    && final(self).cache_project_id@ == project_id@ && final(self).cache_width == width
                    && final(self).cache_logs_len == logs_len)
            },
    {
        if cache.is_valid(project_id, width, logs_len, rev) {
            let n = cache.lines.len();
            self.set_scroll(n, height);
            self.last_logs_len = n;
            self.last_line_map = cache.line_map.clone();
            self.cache_project_id = crate::text::copy_str(project_id);
            self.cache_width = width;
            self.cache_logs_len = logs_len;
            let mut wrapped: Vec<(usize, String, LogColor)> = Vec::new();
            let mut urls: Vec<(usize, Vec<UrlMatch>)> = Vec::new();
            let mut i: usize = 0;
            while i < n
                invariant
                    i <= n,
                    n == cache.lines@.len(),
                    wrapped@.len() == i,
                    urls@.len() == i,
                    forall|j: int| 0 <= j < i ==> {
                        &&& (#[trigger] wrapped@[j]).0 == cache.lines@[j].orig_idx
                        &&& wrapped@[j].1@ == cache.lines@[j].content@
                        &&& wrapped@[j].2 == cache.lines@[j].color
                    },
                    forall|j: int| 0 <= j < i ==> (#[trigger] urls@[j]).0 == j
                        && match_views(urls@[j].1@) == match_views(cache.lines@[j].urls@),
                decreases n - i,
            {
                let l = &cache.lines[i];
                wrapped.push((l.orig_idx, crate::text::copy_str(l.content.as_str()), l.color));
                urls.push((i, copy_matches(&l.urls)));
                i = i + 1;
            }
            self.cache_wrapped = wrapped;
            self.cache_urls = urls;
            (LogFrame::Processed, false)
        } else {
            let ask = self.req_rev != rev || !crate::text::seq_eq(
                chars_of(self.req_project_id.as_str()).as_slice(),
                chars_of(project_id).as_slice(),
            ) || self.req_width != width;
            if ask {
                self.req_rev = rev;
                self.req_project_id = crate::text::copy_str(project_id);
                self.req_width = width;
            }
            let stale = crate::text::seq_eq(
                chars_of(self.cache_project_id.as_str()).as_slice(),
                chars_of(project_id).as_slice(),
            ) && self.cache_width == width && self.cache_logs_len > 0;
            self.set_scroll(logs_len, height);
            self.last_logs_len = logs_len;
            if stale {
                (LogFrame::Stale, ask)
            } else {
                let mut map: Vec<usize> = Vec::new();
                let mut i: usize = 0;
                while i < logs_len
                    invariant
                        i <= logs_len,
                        map@.len() == i,
                        forall|j: int| 0 <= j < i ==> #[trigger] map@[j] == j,
                    decreases logs_len - i,
                {
                    map.push(i);
                    i = i + 1;
                }
                self.last_line_map = map;
                self.cache_project_id = crate::text::copy_str(project_id);
                self.cache_width = width;
                self.cache_logs_len = logs_len;
                (LogFrame::Raw, ask)
            }
        }
    }

    /// A frame with no process selected: nothing shown, nothing to click.
    pub fn clear_frame(&mut self)
        ensures
            final(self).last_logs_len == 0,
            final(self).last_rendered_scroll == 0,
            final(self).last_line_map@.len() == 0,
            final(self).cache_urls@.len() == 0,
            final(self).log_scroll == old(self).log_scroll,
            final(self).auto_scroll_logs == old(self).auto_scroll_logs,
            final(self).log_sidebar_index == old(self).log_sidebar_index,
            final(self).selection_start == old(self).selection_start,
            final(self).selection_end == old(self).selection_end,
    {
        self.last_logs_len = 0;
        self.last_rendered_scroll = 0;
        self.last_line_map = Vec::new();
        self.cache_urls = Vec::new();
    }
}

// ── the sidebar ────────────────────────────────────────────────────────────

/// A row of the logs sidebar: a category heading, or a process (by its
/// index among the active sources).
#[derive(Clone, Debug, PartialEq)]
pub enum LogSelectionItem {
    Category(String),
    Source(usize),
}

pub enum ItemView {
    Category(Seq<char>),
    Source(usize),
}

impl LogSelectionItem {
    pub open spec fn view(&self) -> ItemView {
        match self {
            LogSelectionItem::Category(c) => ItemView::Category(c@),
            LogSelectionItem::Source(i) => ItemView::Source(*i),
        }
    }
}

pub open spec fn item_views(v: Seq<LogSelectionItem>) -> Seq<ItemView> {
    v.map_values(|i: LogSelectionItem| i.view())
}

/// The processes whose logs can be shown: running or crashed, in id order.
pub open spec fn active_entries(es: Seq<(ProjectView, StatusView)>) -> Seq<(ProjectView, StatusView)> {
    es.filter(|e: (ProjectView, StatusView)| e.1 is Running || e.1 is Crashed)
}

/// The sidebar category of a process: its own, else `Other`.
pub open spec fn source_category(p: ProjectView) -> Seq<char> {
    match p.category {
        Some(c) => c,
        None => "Other"@,
    }
}

/// The category of each active source, in order.
pub open spec fn source_categories(es: Seq<(ProjectView, StatusView)>) -> Seq<Seq<char>> {
    active_entries(es).map_values(|e: (ProjectView, StatusView)| source_category(e.0))
}

/// The `Source` rows of the first `n` sources whose category is `c`.
pub open spec fn sources_in(cats: Seq<Seq<char>>, c: Seq<char>, n: int) -> Seq<ItemView>
    decreases n,
{
    if n <= 0 {
        Seq::empty()
    } else {
        let r = sources_in(cats, c, n - 1);
        if cats[n - 1] == c {
            r.push(ItemView::Source((n - 1) as usize))
        } else {
            r
        }
    }
}

/// A heading per category of `order`, each followed by its sources.
pub open spec fn items_of(order: Seq<Seq<char>>, cats: Seq<Seq<char>>) -> Seq<ItemView>
    decreases order.len(),
{
    if order.len() == 0 {
        Seq::empty()
    } else {
        items_of(order.drop_last(), cats) + seq![ItemView::Category(order.last())] + sources_in(
            cats,
            order.last(),
            cats.len() as int,
        )
    }
}

/// `order` lists the categories of `cats`, each once, in string order.
pub open spec fn category_order(order: Seq<Seq<char>>, cats: Seq<Seq<char>>) -> bool {
    &&& forall|i: int, j: int| 0 <= i < j < order.len() ==> seq_less(#[trigger] order[i], #[trigger] order[j])
    &&& forall|c: Seq<char>| #![trigger order.contains(c)] #![trigger cats.contains(c)] order.contains(c) <==> cats.contains(c)
}

/// The sidebar rows of a process table with entries `es`: a heading per
/// category in string order, each followed by its active sources.
pub open spec fn sidebar(es: Seq<(ProjectView, StatusView)>) -> Seq<ItemView> {
    let cats = source_categories(es);
    items_of(choose|order: Seq<Seq<char>>| category_order(order, cats), cats)
}

/// Two strictly sorted lists of the same strings are the same list.
proof fn lemma_order_unique(a: Seq<Seq<char>>, b: Seq<Seq<char>>)
    requires
        forall|i: int, j: int| 0 <= i < j < a.len() ==> seq_less(#[trigger] a[i], #[trigger] a[j]),
        forall|i: int, j: int| 0 <= i < j < b.len() ==> seq_less(#[trigger] b[i], #[trigger] b[j]),
        forall|c: Seq<char>| #![trigger a.contains(c)] #![trigger b.contains(c)] a.contains(c) <==> b.contains(c),
    ensures
        a == b,
    decreases a.len(),
{
    if a.len() == 0 {
        if b.len() > 0 {
            assert(b.contains(b[0]));
        }
        assert(b.len() == 0);
    } else {
        assert(a.contains(a[0]));
        assert(b.len() > 0);
        assert(b.contains(b[0]));
        let k = choose|k: int| 0 <= k < b.len() && b[k] == a[0];
        let j = choose|j: int| 0 <= j < a.len() && a[j] == b[0];
        if a[0] != b[0] {
            assert(k > 0 && j > 0);
            assert(seq_less(b[0], b[k]));
            assert(seq_less(a[0], a[j]));
            crate::text::lemma_seq_less_asym(a[0], b[0]);
        }
        let a1 = a.drop_first();
        let b1 = b.drop_first();
        assert forall|c: Seq<char>| #![trigger a1.contains(c)] #![trigger b1.contains(c)] a1.contains(c) <==> b1.contains(c) by {
            if a1.contains(c) {
                let q = choose|q: int| 0 <= q < a1.len() && a1[q] == c;
                assert(a[q + 1] == c);
                assert(seq_less(a[0], c));
                crate::text::lemma_seq_less_irreflexive(c);
                assert(b.contains(c));
                let r = choose|r: int| 0 <= r < b.len() && b[r] == c;
                assert(r != 0);
                assert(b1[r - 1] == c);
            }
            if b1.contains(c) {
                let q = choose|q: int| 0 <= q < b1.len() && b1[q] == c;
                assert(b[q + 1] == c);
                assert(seq_less(b[0], c));
                crate::text::lemma_seq_less_irreflexive(c);
                assert(a.contains(c));
                let r = choose|r: int| 0 <= r < a.len() && a[r] == c;
                assert(r != 0);
                assert(a1[r - 1] == c);
            }
        }
        assert forall|i: int, j: int| 0 <= i < j < a1.len() implies seq_less(#[trigger] a1[i], #[trigger] a1[j]) by {
            assert(a1[i] == a[i + 1] && a1[j] == a[j + 1]);
        }
        assert forall|i: int, j: int| 0 <= i < j < b1.len() implies seq_less(#[trigger] b1[i], #[trigger] b1[j]) by {
            assert(b1[i] == b[i + 1] && b1[j] == b[j + 1]);
        }
        lemma_order_unique(a1, b1);
        assert(a =~= seq![a[0]] + a1);
        assert(b =~= seq![b[0]] + b1);
    }
}

/// Insert `c` into a strictly sorted list (unless present).
fn insert_sorted(order: &mut Vec<String>, c: &String)
    requires
        forall|i: int, j: int|
            0 <= i < j < old(order)@.len() ==> seq_less(#[trigger] strs(old(order)@)[i], #[trigger] strs(old(order)@)[j]),
    ensures
        forall|i: int, j: int|
            0 <= i < j < final(order)@.len() ==> seq_less(#[trigger] strs(final(order)@)[i], #[trigger] strs(final(order)@)[j]),
        forall|x: Seq<char>| #[trigger] strs(final(order)@).contains(x) <==> (strs(old(order)@).contains(x) || x == c@),
{
    let ghost o = strs(order@);
    let cc = chars_of(c.as_str());
    let mut p: usize = 0;
    while p < order.len() && less_chars(chars_of(order[p].as_str()).as_slice(), cc.as_slice())
        invariant
            p <= order@.len(),
            o == strs(order@),
            cc@ == c@,
            forall|i: int| 0 <= i < p ==> seq_less(#[trigger] o[i], c@),
        decreases order@.len() - p,
    {
        p = p + 1;
    }
    if p < order.len() && crate::text::seq_eq(chars_of(order[p].as_str()).as_slice(), cc.as_slice()) {
        assert(o[p as int] == c@);
        return;
    }
    proof {
        if p < o.len() {
            crate::text::lemma_seq_less_total(o[p as int], c@);
        }
    }
    order.insert(p, c.clone());
    proof {
        let n = strs(order@);
        assert(n =~= o.insert(p as int, c@));
        assert forall|j: int| p < j < n.len() implies seq_less(c@, #[trigger] n[j]) by {
            assert(n[j] == o[j - 1]);
            if j - 1 > p {
                crate::text::lemma_seq_less_transitive(c@, o[p as int], o[j - 1]);
            }
        }
        assert forall|i: int, j: int| 0 <= i < j < n.len() implies seq_less(#[trigger] n[i], #[trigger] n[j]) by {
            if j < p {
                assert(n[i] == o[i] && n[j] == o[j]);
            } else if j == p {
                assert(n[i] == o[i]);
            } else if i < p {
                assert(n[i] == o[i]);
                assert(seq_less(c@, n[j]));
                crate::text::lemma_seq_less_transitive(n[i], c@, n[j]);
            } else if i == p {
            } else {
                assert(n[i] == o[i - 1] && n[j] == o[j - 1]);
            }
        }
        assert forall|x: Seq<char>| #[trigger] n.contains(x) <==> (o.contains(x) || x == c@) by {
            if n.contains(x) {
                let k = choose|k: int| 0 <= k < n.len() && n[k] == x;
                if k < p {
                    assert(o[k] == x);
                } else if k > p {
                    assert(o[k - 1] == x);
                }
            }
            if o.contains(x) {
                let k = choose|k: int| 0 <= k < o.len() && o[k] == x;
                if k < p {
                    assert(n[k] == x);
                } else {
                    assert(n[k + 1] == x);
                }
            }
            if x == c@ {
                assert(n[p as int] == x);
            }
        }
    }
}

impl LogsController {
    /// The processes whose logs can be shown (running or crashed), in id
    /// order, with their status.
    pub fn get_active_sources(manager: &ProcessManager) -> (r: Vec<(Project, ProcessStatus)>)
        requires
            manager.wf(),
        ensures
            r@.map_values(|e: (Project, ProcessStatus)| (e.0@, e.1@)) == active_entries(manager.entries()),
    {
        let all = manager.get_statuses();
        let ghost es = manager.entries();
        let ghost f = |e: (ProjectView, StatusView)| e.1 is Running || e.1 is Crashed;
        let ghost vw = |e: (Project, ProcessStatus)| (e.0@, e.1@);
        let mut r: Vec<(Project, ProcessStatus)> = Vec::new();
        let mut i: usize = 0;
        while i < all.len()
            invariant
                i <= all@.len(),
                all@.len() == es.len(),
                forall|k: int| 0 <= k < all@.len() ==> (#[trigger] all@[k]).0@ == es[k].0 && all@[k].1@ == es[k].1,
                f == (|e: (ProjectView, StatusView)| e.1 is Running || e.1 is Crashed),
                vw == (|e: (Project, ProcessStatus)| (e.0@, e.1@)),
                r@.map_values(vw) == es.take(i as int).filter(f),
            decreases all@.len() - i,
        {
            proof {
                assert(es.take(i + 1).drop_last() =~= es.take(i as int));
                assert(es.take(i + 1).last() == es[i as int]);
                reveal_with_fuel(Seq::filter, 1);
            }
            let keep = match all[i].1 {
                ProcessStatus::Running(_) | ProcessStatus::Crashed(_) => true,
                _ => false,
            };
            if keep {
                let ghost before = r@.map_values(vw);
                r.push((all[i].0.copy(), all[i].1.copy()));
                assert(r@.map_values(vw) =~= before.push(es[i as int]));
            }
            i = i + 1;
        }
        assert(es.take(es.len() as int) =~= es);
        r
    }

    /// The sidebar: a heading per category (in string order), each followed
    /// by its active sources in order.
    pub fn get_all_items(manager: &ProcessManager) -> (r: Vec<LogSelectionItem>)
        requires
            manager.wf(),
        ensures
            item_views(r@) == sidebar(manager.entries()),
    {
        let active = Self::get_active_sources(manager);
        let ghost av = active_entries(manager.entries());
        let ghost cv = av.map_values(|e: (ProjectView, StatusView)| source_category(e.0));
        // the category of each source
        let mut cats: Vec<String> = Vec::new();
        let mut i: usize = 0;
        while i < active.len()
            invariant
                i <= active@.len(),
                active@.map_values(|e: (Project, ProcessStatus)| (e.0@, e.1@)) == av,
                cv == av.map_values(|e: (ProjectView, StatusView)| source_category(e.0)),
                strs(cats@) == cv.take(i as int),
            decreases active@.len() - i,
        {
            assert(av[i as int] == (active@[i as int].0@, active@[i as int].1@));
            let c = match &active[i].0.category {
                Some(c) => c.clone(),
                None => copy_str("Other"),
            };
            let ghost before = strs(cats@);
            cats.push(c);
            assert(strs(cats@) =~= before.push(cv[i as int]));
            assert(cv.take(i + 1) =~= cv.take(i as int).push(cv[i as int]));
            i = i + 1;
        }
        assert(cv.take(cv.len() as int) =~= cv);
        // the distinct categories in order
        let mut order: Vec<String> = Vec::new();
        let mut k: usize = 0;
        while k < cats.len()
            invariant
                k <= cats@.len(),
                strs(cats@) == cv,
                forall|a: int, b: int| 0 <= a < b < order@.len() ==> seq_less(#[trigger] strs(order@)[a], #[trigger] strs(order@)[b]),
                forall|x: Seq<char>| #[trigger] strs(order@).contains(x) <==> cv.take(k as int).contains(x),
            decreases cats@.len() - k,
        {
            insert_sorted(&mut order, &cats[k]);
            proof {
                assert forall|x: Seq<char>| #[trigger] cv.take(k + 1).contains(x) <==> (cv.take(k as int).contains(x) || x == cats@[k as int]@) by {
                    broadcast use vstd::seq_lib::group_seq_properties;

                    assert(cv.take(k + 1) =~= cv.take(k as int).push(cv[k as int]));
                    assert(cv[k as int] == cats@[k as int]@);
                }
            }
            k = k + 1;
        }
        assert(cv.take(cv.len() as int) =~= cv);
        let ghost ov = strs(order@);
        // the rows
        let mut r: Vec<LogSelectionItem> = Vec::new();
        let mut g: usize = 0;
        assert(ov.take(0) =~= Seq::<Seq<char>>::empty());
        assert(item_views(r@) =~= Seq::<ItemView>::empty());
        while g < order.len()
            invariant
                g <= order@.len(),
                ov == strs(order@),
                strs(cats@) == cv,
                item_views(r@) == items_of(ov.take(g as int), cv),
            decreases order@.len() - g,
        {
            let ghost start = item_views(r@);
            r.push(LogSelectionItem::Category(order[g].clone()));
            let oc = chars_of(order[g].as_str());
            assert(ov[g as int] == oc@);
            let mut j: usize = 0;
            while j < cats.len()
                invariant
                    j <= cats@.len(),
                    strs(cats@) == cv,
                    oc@ == ov[g as int],
                    item_views(r@) == start + seq![ItemView::Category(ov[g as int])] + sources_in(cv, ov[g as int], j as int),
                decreases cats@.len() - j,
            {
                assert(cv[j as int] == cats@[j as int]@);
                if crate::text::seq_eq(chars_of(cats[j].as_str()).as_slice(), oc.as_slice()) {
                    let ghost before = item_views(r@);
                    r.push(LogSelectionItem::Source(j));
                    assert(item_views(r@) =~= before.push(ItemView::Source(j)));
                }
                j = j + 1;
            }
            proof {
                assert(ov.take(g + 1).drop_last() =~= ov.take(g as int));
                assert(ov.take(g + 1).last() == ov[g as int]);
            }
            g = g + 1;
        }
        assert(ov.take(ov.len() as int) =~= ov);
        proof {
            let cats = source_categories(manager.entries());
            assert(category_order(ov, cats));
            let o2 = choose|order: Seq<Seq<char>>| category_order(order, cats);
            lemma_order_unique(ov, o2);
        }
        r
    }
}

pub struct LogsController;

// ── moving through the sidebar ─────────────────────────────────────────────

/// Whether row `i` is a category heading.
pub open spec fn is_heading(items: Seq<ItemView>, i: int) -> bool {
    0 <= i < items.len() && items[i] is Category
}

/// The row after (or before) `i`, wrapping around.
pub open spec fn step(len: int, i: int, fwd: bool) -> int {
    if fwd {
        (i + 1) % len
    } else {
        (i + len - 1) % len
    }
}

/// From row `i`, move on past headings, stopping on returning to `origin`
/// (and after at most `fuel` moves).
pub open spec fn past_headings(items: Seq<ItemView>, origin: int, i: int, fwd: bool, fuel: nat) -> int
    decreases fuel,
{
    if fuel == 0 || !is_heading(items, i) {
        i
    } else {
        let n = step(items.len() as int, i, fwd);
        if n == origin {
            n
        } else {
            past_headings(items, origin, n, fwd, (fuel - 1) as nat)
        }
    }
}

/// The next process row from `cur` (moving from `origin`).
pub open spec fn next_row(items: Seq<ItemView>, origin: int, cur: int, fwd: bool) -> int {
    past_headings(items, origin, step(items.len() as int, cur, fwd), fwd, items.len())
}

/// `k` moves from `cur`.
pub open spec fn rows_moved(items: Seq<ItemView>, origin: int, cur: int, fwd: bool, k: nat) -> int
    decreases k,
{
    if k == 0 {
        cur
    } else {
        rows_moved(items, origin, next_row(items, origin, cur, fwd), fwd, (k - 1) as nat)
    }
}

fn next_row_exec(items: &Vec<LogSelectionItem>, origin: usize, cur: usize, fwd: bool) -> (r: usize)
    requires
        items@.len() > 0,
    ensures
        r == next_row(item_views(items@), origin as int, cur as int, fwd),
        r < items@.len(),
{
    let len = items.len();
    let ghost iv = item_views(items@);
    let mut i: usize = if fwd {
        ((cur as u128 + 1) % (len as u128)) as usize
    } else {
        ((cur as u128 + len as u128 - 1) % (len as u128)) as usize
    };
    let mut fuel: usize = len;
    while fuel > 0
        invariant
            i < len,
            len == items@.len(),
            fuel <= len,
            iv == item_views(items@),
            next_row(iv, origin as int, cur as int, fwd) == past_headings(iv, origin as int, i as int, fwd, fuel as nat),
        decreases fuel,
    {
        assert(iv[i as int] == items@[i as int].view());
        let heading = match &items[i] {
            LogSelectionItem::Category(_) => true,
            LogSelectionItem::Source(_) => false,
        };
        if !heading {
            return i;
        }
        let n = if fwd {
            (i + 1) % len
        } else if i == 0 {
            assert((0 + len - 1) % (len as int) == len - 1) by (nonlinear_arith)
                requires
                    len > 0,
            ;
            len - 1
        } else {
            assert((i + len - 1) % (len as int) == i - 1) by (nonlinear_arith)
                requires
                    0 < i < len,
            ;
            i - 1
        };
        if n == origin {
            return n;
        }
        i = n;
        fuel = fuel - 1;
    }
    i
}

/// The process row selected, with the process: the row is a source whose
/// index is among the active sources.
pub open spec fn selected_source(items: Seq<ItemView>, idx: int, active: Seq<(ProjectView, StatusView)>) -> Option<ProjectView> {
    if 0 <= idx < items.len() && items[idx] is Source && (items[idx]->Source_0 as int) < active.len() {
        Some(active[items[idx]->Source_0 as int].0)
    } else {
        None
    }
}

/// The id whose host and prod mode a source follows: an engine follows its
/// parent.
pub open spec fn mode_owner(id: Seq<char>) -> Seq<char> {
    match crate::engine::start::engine_parent(id) {
        Some(p) => p,
        None => id,
    }
}

/// The text copied for the selected rows `i..=e`: each log line once (the
/// first row of a wrapped line brings it), without escapes, each ended by
/// a newline.
pub open spec fn copy_text(map: Seq<usize>, logs: Seq<Seq<char>>, i: int, e: int, last: Option<usize>) -> Seq<char>
    decreases e - i + 1,
{
    if i > e || i < 0 || i >= map.len() {
        Seq::empty()
    } else if Some(map[i]) != last {
        (if (map[i] as int) < logs.len() {
            stripped(logs[map[i] as int]) + "\n"@
        } else {
            Seq::empty()
        }) + copy_text(map, logs, i + 1, e, Some(map[i]))
    } else {
        copy_text(map, logs, i + 1, e, last)
    }
}

/// The URLs cached for wrapped line `line`: those of its first entry.
pub open spec fn cached_urls(cache: Seq<(usize, Vec<UrlMatch>)>, line: int) -> Seq<UrlMatch>
    decreases cache.len(),
{
    if cache.len() == 0 {
        Seq::empty()
    } else if cache[0].0 == line {
        cache[0].1@
    } else {
        cached_urls(cache.drop_first(), line)
    }
}

fn cached_urls_exec(cache: &Vec<(usize, Vec<UrlMatch>)>, line: usize) -> (r: Option<&Vec<UrlMatch>>)
    ensures
        match r {
            Some(v) => v@ == cached_urls(cache@, line as int),
            None => cached_urls(cache@, line as int).len() == 0,
        },
{
    let mut i: usize = 0;
    assert(cache@.skip(0) =~= cache@);
    while i < cache.len()
        invariant
            i <= cache@.len(),
            cached_urls(cache@, line as int) == cached_urls(cache@.skip(i as int), line as int),
        decreases cache@.len() - i,
    {
        assert(cache@.skip(i as int)[0] == cache@[i as int]);
        assert(cache@.skip(i as int).drop_first() =~= cache@.skip(i + 1));
        if cache[i].0 == line {
            return Some(&cache[i].1);
        }
        i = i + 1;
    }
    None
}

/// The line the `o` key looks at: the top of the selection, else the top of
/// the view.
pub open spec fn url_line(m: LogsModel) -> int {
    match (m.selection_start, m.selection_end) {
        (Some(s), Some(e)) => if s < e {
            s as int
        } else {
            e as int
        },
        _ => m.last_rendered_scroll as int,
    }
}

/// The URL `o` opens on a line: the first cached for the wrapped line, else
/// the first in its log line (without escapes).
pub open spec fn url_on_line(m: LogsModel, logs: Seq<Seq<char>>) -> Option<Seq<char>> {
    let line = url_line(m);
    let us = cached_urls(m.cache_urls@, line);
    if us.len() > 0 {
        Some(us[0].url@)
    } else if 0 <= line < m.last_line_map@.len() && (m.last_line_map@[line] as int) < logs.len()
        && url_pattern_matches(stripped(logs[m.last_line_map@[line] as int])).len() > 0 {
        Some(url_of_match(url_pattern_matches(stripped(logs[m.last_line_map@[line] as int]))[0]).0)
    } else {
        None
    }
}

/// What the logs tab asks of the app after a key.
pub enum LogAction {
    NoAction,
    /// Show this message.
    Message(String),
    /// Restart this process.
    Restart(String),
    /// Flip host mode of the first id, then restart the second; the third is
    /// the process's name.
    ToggleHost(String, String, String),
    /// Flip prod mode of the first id, then restart the second; the third is
    /// the process's name.
    ToggleProd(String, String, String),
    /// Put this text on the clipboard.
    Copy(String),
    /// Open this URL in the browser.
    OpenUrl(String),
}

pub enum LogActionView {
    NoAction,
    Message(Seq<char>),
    Restart(Seq<char>),
    ToggleHost(Seq<char>, Seq<char>, Seq<char>),
    ToggleProd(Seq<char>, Seq<char>, Seq<char>),
    Copy(Seq<char>),
    OpenUrl(Seq<char>),
}

impl LogAction {
    pub open spec fn view(&self) -> LogActionView {
        match self {
            LogAction::NoAction => LogActionView::NoAction,
            LogAction::Message(m) => LogActionView::Message(m@),
            LogAction::Restart(i) => LogActionView::Restart(i@),
            LogAction::ToggleHost(a, b, c) => LogActionView::ToggleHost(a@, b@, c@),
            LogAction::ToggleProd(a, b, c) => LogActionView::ToggleProd(a@, b@, c@),
            LogAction::Copy(t) => LogActionView::Copy(t@),
            LogAction::OpenUrl(u) => LogActionView::OpenUrl(u@),
        }
    }
}

/// The lowest line a view of `height` rows can scroll to.
pub open spec fn max_scroll(m: LogsModel) -> u16 {
    sat_sub(m.last_logs_len, m.last_log_area.height as usize) as u16
}

/// The model moved to sidebar row `idx`: the view at the top, no selection.
pub open spec fn moved_to(old: LogsModel, new: LogsModel, idx: int) -> bool {
    new.log_sidebar_index == idx && new.log_scroll == 0 && new.selection_start.is_none()
        && new.selection_end.is_none() && new.auto_scroll_logs == old.auto_scroll_logs
}

/// Nothing of the model changed that the keys change.
pub open spec fn unmoved(old: LogsModel, new: LogsModel) -> bool {
    new.log_sidebar_index == old.log_sidebar_index && new.log_scroll == old.log_scroll
        && new.selection_start == old.selection_start && new.selection_end == old.selection_end
        && new.auto_scroll_logs == old.auto_scroll_logs
}

/// The logs the app shows for `id`: its buffer when registered.
pub open spec fn shown_logs(m: ProcessManager, id: Seq<char>) -> Seq<Seq<char>> {
    if m.processes().contains_key(id) {
        m.logs_of(id)
    } else {
        Seq::empty()
    }
}

/// Nothing but the sidebar row, scroll, follow flag and selection changed.
pub open spec fn render_state_kept(old: LogsModel, new: LogsModel) -> bool {
    &&& new.last_log_area == old.last_log_area
    &&& new.last_rendered_scroll == old.last_rendered_scroll
    &&& new.last_logs_len == old.last_logs_len
    &&& new.last_line_map@ == old.last_line_map@
    &&& new.cache_urls@ == old.cache_urls@
}

fn selected_project<'a>(
    items: &Vec<LogSelectionItem>,
    idx: usize,
    active: &'a Vec<(Project, ProcessStatus)>,
) -> (r: Option<&'a Project>)
    ensures
        match r {
            Some(p) => selected_source(item_views(items@), idx as int, active@.map_values(
                |e: (Project, ProcessStatus)| (e.0@, e.1@),
            )) == Some(p@),
            None => selected_source(item_views(items@), idx as int, active@.map_values(
                |e: (Project, ProcessStatus)| (e.0@, e.1@),
            )).is_none(),
        },
{
    if idx < items.len() {
        assert(item_views(items@)[idx as int] == items@[idx as int].view());
        match &items[idx] {
            LogSelectionItem::Source(a) => {
                if *a < active.len() {
                    return Some(&active[*a].0);
                }
            },
            LogSelectionItem::Category(_) => {},
        }
    }
    None
}

fn copy_text_exec(map: &Vec<usize>, logs: &Vec<String>, s: usize, e: usize) -> (r: String)
    ensures
        r@ == copy_text(map@, strs(logs@), s as int, e as int, None),
{
    let mut out: Vec<char> = Vec::new();
    let mut last: Option<usize> = None;
    let mut i = s;
    let ghost lv = strs(logs@);
    let stop: usize = if e < map.len() {
        e
    } else if map.len() > 0 {
        map.len() - 1
    } else {
        0
    };
    proof {
        // rows past the map add nothing
        if s > stop || s >= map@.len() {
            assert(copy_text(map@, lv, s as int, e as int, None) == Seq::<char>::empty()) by {
                if s <= e && s < map@.len() {
                    assert(e >= map@.len());
                    assert(s > map@.len() - 1);
                }
            }
        }
    }
    if s > stop || s >= map.len() {
        return String::new();
    }
    let mlen = map.len();
    while i <= stop
        invariant
            s <= i,
            mlen == map@.len(),
            stop < mlen,
            stop <= e,
            e >= map@.len() ==> stop == map@.len() - 1,
            lv == strs(logs@),
            copy_text(map@, lv, s as int, e as int, None) == out@ + copy_text(map@, lv, i as int, e as int, last),
        decreases stop + 1 - i,
    {
        let o = map[i];
        if Some(o) != last {
            if o < logs.len() {
                let t = strip_ansi(logs[o].as_str());
                crate::text::append_chars(&mut out, chars_of(t.as_str()).as_slice());
                out.push('\n');
                proof {
                    reveal_strlit("\n");
                    assert(lv[o as int] == logs@[o as int]@);
                }
            }
            last = Some(o);
        }
        i = i + 1;
    }
    proof {
        assert(i > stop);
        if (i as int) <= e {
            assert(i >= map@.len());
        }
        assert(copy_text(map@, lv, i as int, e as int, last) == Seq::<char>::empty());
        assert(out@ + Seq::<char>::empty() =~= out@);
    }
    string_of(out.as_slice())
}

fn url_on_line_exec(m: &LogsModel, logs: &Vec<String>) -> (r: Option<String>)
    ensures
        match r {
            Some(u) => url_on_line(*m, strs(logs@)) == Some(u@),
            None => url_on_line(*m, strs(logs@)).is_none(),
        },
{
    let line: usize = match (m.selection_start, m.selection_end) {
        (Some(s), Some(e)) => if s < e {
            s
        } else {
            e
        },
        _ => m.last_rendered_scroll,
    };
    match cached_urls_exec(&m.cache_urls, line) {
        Some(us) => {
            if us.len() > 0 {
                return Some(us[0].url.clone());
            }
        },
        None => {},
    }
    if line < m.last_line_map.len() {
        let o = m.last_line_map[line];
        if o < logs.len() {
            let clean = strip_ansi(logs[o].as_str());
            let found = find_urls(clean.as_str());
            assert(strs(logs@)[o as int] == logs@[o as int]@);
            if found.len() > 0 {
                return Some(found[0].url.clone());
            }
        }
    }
    None
}

fn strip_engine_prefix(id: &str) -> (r: String)
    ensures
        r@ == mode_owner(id@),
{
    let c = chars_of(id);
    if crate::text::starts_with_str(c.as_slice(), "engine:") {
        proof {
            reveal_strlit("engine:");
        }
        let rest = crate::text::slice_vec(c.as_slice(), 7, c.len());
        assert(rest@ =~= id@.skip(7));
        string_of(rest.as_slice())
    } else {
        copy_str(id)
    }
}

impl LogsController {
    /// A key in the logs tab: move through the sidebar (skipping headings,
    /// wrapping around), scroll to the ends, or act on the selected process
    /// (restart, host or prod mode, copy the selected lines, open a URL).
    pub fn handle_key(key: KeyCode, model: &mut LogsModel, manager: &ProcessManager) -> (r: LogAction)
        requires
            manager.wf(),
        ensures
            render_state_kept(*old(model), *final(model)),
            ({
                let items = sidebar(manager.entries());
                let active = active_entries(manager.entries());
                let idx = old(model).log_sidebar_index as int;
                let sel = selected_source(items, idx, active);
                if items.len() == 0 {
                    r.view() == LogActionView::NoAction && unmoved(*old(model), *final(model))
                } else {
                    match key {
                        KeyCode::Down | KeyCode::Char('j') => r.view() == LogActionView::NoAction
                            && moved_to(*old(model), *final(model), next_row(items, idx, idx, true)),
                        KeyCode::Up | KeyCode::Char('k') => r.view() == LogActionView::NoAction
                            && moved_to(*old(model), *final(model), next_row(items, idx, idx, false)),
                        KeyCode::PageDown => r.view() == LogActionView::NoAction && moved_to(
                            *old(model),
                            *final(model),
                            rows_moved(items, idx, idx, true, 5),
                        ),
                        KeyCode::PageUp => r.view() == LogActionView::NoAction && moved_to(
                            *old(model),
                            *final(model),
                            rows_moved(items, idx, idx, false, 5),
                        ),
                        KeyCode::End => r.view() == LogActionView::NoAction && final(model).log_scroll
                            == max_scroll(*old(model)) && final(model).auto_scroll_logs
                            && final(model).log_sidebar_index == old(model).log_sidebar_index
                            && final(model).selection_start == old(model).selection_start
                            && final(model).selection_end == old(model).selection_end,
                        KeyCode::Home => r.view() == LogActionView::NoAction && final(model).log_scroll
                            == 0 && !final(model).auto_scroll_logs && final(model).log_sidebar_index
                            == old(model).log_sidebar_index && final(model).selection_start == old(
                            model,
                        ).selection_start && final(model).selection_end == old(model).selection_end,
                        KeyCode::Char('r') => unmoved(*old(model), *final(model)) && r.view() == match sel {
                            Some(p) => LogActionView::Restart(p.id),
                            None => LogActionView::NoAction,
                        },
                        KeyCode::Char('H') => unmoved(*old(model), *final(model)) && r.view() == match sel {
                            Some(p) => LogActionView::ToggleHost(mode_owner(p.id), p.id, name_of(p)),
                            None => LogActionView::NoAction,
                        },
                        KeyCode::Char('p') => unmoved(*old(model), *final(model)) && r.view() == match sel {
                            Some(p) => LogActionView::ToggleProd(mode_owner(p.id), p.id, name_of(p)),
                            None => LogActionView::NoAction,
                        },
                        KeyCode::Char('c') => unmoved(*old(model), *final(model)) && r.view() == match (
                            old(model).selection_start,
                            old(model).selection_end,
                            sel,
                        ) {
                            (Some(s), Some(e), Some(p)) => {
                                let t = copy_text(
                                    old(model).last_line_map@,
                                    shown_logs(*manager, p.id),
                                    if s < e {
                                        s as int
                                    } else {
                                        e as int
                                    },
                                    if s < e {
                                        e as int
                                    } else {
                                        s as int
                                    },
                                    None,
                                );
                                if t.len() > 0 {
                                    LogActionView::Copy(t)
                                } else {
                                    LogActionView::NoAction
                                }
                            },
                            _ => LogActionView::NoAction,
                        },
                        KeyCode::Char('o') => unmoved(*old(model), *final(model)) && r.view() == match sel {
                            Some(p) => match url_on_line(*old(model), shown_logs(*manager, p.id)) {
                                Some(u) => LogActionView::OpenUrl(u),
                                None => LogActionView::Message("No URL found on selected line"@),
                            },
                            None => LogActionView::NoAction,
                        },
                        _ => r.view() == LogActionView::NoAction && unmoved(*old(model), *final(model)),
                    }
                }
            }),
    {
        let items = Self::get_all_items(manager);
        let active = Self::get_active_sources(manager);
        let total = items.len();
        if total == 0 {
            return LogAction::NoAction;
        }
        let idx = model.log_sidebar_index;
        match key {
            KeyCode::Down | KeyCode::Char('j') => {
                model.log_sidebar_index = next_row_exec(&items, idx, idx, true);
                model.log_scroll = 0;
                model.clear_selection();
                LogAction::NoAction
            },
            KeyCode::Up | KeyCode::Char('k') => {
                model.log_sidebar_index = next_row_exec(&items, idx, idx, false);
                model.log_scroll = 0;
                model.clear_selection();
                LogAction::NoAction
            },
            KeyCode::PageDown | KeyCode::PageUp => {
                let fwd = match key {
                    KeyCode::PageDown => true,
                    _ => false,
                };
                let mut cur = idx;
                let mut k: usize = 0;
                while k < 5
                    invariant
                        k <= 5,
                        items@.len() > 0,
                        rows_moved(item_views(items@), idx as int, idx as int, fwd, 5) == rows_moved(
                            item_views(items@),
                            idx as int,
                            cur as int,
                            fwd,
                            (5 - k) as nat,
                        ),
                    decreases 5 - k,
                {
                    cur = next_row_exec(&items, idx, cur, fwd);
                    k = k + 1;
                }
                model.log_sidebar_index = cur;
                model.log_scroll = 0;
                model.clear_selection();
                LogAction::NoAction
            },
            KeyCode::End => {
                let h = model.last_log_area.height as usize;
                let ms = model.last_logs_len.saturating_sub(h);
                model.scroll_to_bottom(ms as u16);
                LogAction::NoAction
            },
            KeyCode::Home => {
                model.scroll_to_top();
                LogAction::NoAction
            },
            KeyCode::Char('r') => match selected_project(&items, idx, &active) {
                Some(p) => LogAction::Restart(p.id.clone()),
                None => LogAction::NoAction,
            },
            KeyCode::Char('H') => match selected_project(&items, idx, &active) {
                Some(p) => LogAction::ToggleHost(strip_engine_prefix(p.id.as_str()), p.id.clone(), p.get_name()),
                None => LogAction::NoAction,
            },
            KeyCode::Char('p') => match selected_project(&items, idx, &active) {
                Some(p) => LogAction::ToggleProd(strip_engine_prefix(p.id.as_str()), p.id.clone(), p.get_name()),
                None => LogAction::NoAction,
            },
            KeyCode::Char('c') => {
                match (model.selection_start, model.selection_end) {
                    (Some(s), Some(e)) => match selected_project(&items, idx, &active) {
                        Some(p) => {
                            let logs = manager.get_logs(p.id.as_str());
                            let (a, b) = if s < e {
                                (s, e)
                            } else {
                                (e, s)
                            };
                            let t = copy_text_exec(&model.last_line_map, &logs, a, b);
                            if chars_of(t.as_str()).len() > 0 {
                                LogAction::Copy(t)
                            } else {
                                LogAction::NoAction
                            }
                        },
                        None => LogAction::NoAction,
                    },
                    _ => LogAction::NoAction,
                }
            },
            KeyCode::Char('o') => match selected_project(&items, idx, &active) {
                Some(p) => {
                    let logs = manager.get_logs(p.id.as_str());
                    match url_on_line_exec(model, &logs) {
                        Some(u) => LogAction::OpenUrl(u),
                        None => LogAction::Message(copy_str("No URL found on selected line")),
                    }
                },
                None => LogAction::NoAction,
            },
            _ => LogAction::NoAction,
        }
    }

    /// The mouse in the logs tab: the wheel scrolls; a click on a URL asks
    /// to open it (returned), elsewhere in the view it starts a selection,
    /// outside it clears the selection; a drag extends the selection.
    pub fn handle_mouse(mouse: MouseEvent, model: &mut LogsModel) -> (r: Option<String>)
        requires
            old(model).last_rendered_scroll + 65536 <= usize::MAX,
        ensures
            render_state_kept(*old(model), *final(model)),
            final(model).log_sidebar_index == old(model).log_sidebar_index,
            ({
                let m = *old(model);
                let a = m.last_log_area;
                let inside_rows = a.y <= mouse.row && (mouse.row as int) < a.y + a.height;
                let line = m.last_rendered_scroll + (mouse.row - a.y);
                match mouse.kind {
                    MouseEventKind::ScrollDown => r.is_none() && final(model).log_scroll == if m.log_scroll
                        >= max_scroll(m) {
                        m.log_scroll
                    } else {
                        (m.log_scroll + 1) as u16
                    } && final(model).auto_scroll_logs == (m.auto_scroll_logs || m.log_scroll + 1
                        >= max_scroll(m)) && final(model).selection_start == m.selection_start
                        && final(model).selection_end == m.selection_end,
                    MouseEventKind::ScrollUp => r.is_none() && final(model).log_scroll == (if m.log_scroll
                        > 0 {
                        (m.log_scroll - 1) as u16
                    } else {
                        0
                    }) && !final(model).auto_scroll_logs && final(model).selection_start
                        == m.selection_start && final(model).selection_end == m.selection_end,
                    MouseEventKind::Down => final(model).log_scroll == m.log_scroll
                        && final(model).auto_scroll_logs == m.auto_scroll_logs && if mouse.column >= a.x
                        && inside_rows {
                        let hit = if line < m.last_logs_len {
                            url_at(cached_urls(m.cache_urls@, line), (mouse.column - a.x) as usize)
                        } else {
                            None
                        };
                        match hit {
                            Some(u) => r matches Some(x) && x@ == u && final(model).selection_start == m.selection_start
                                && final(model).selection_end == m.selection_end,
                            None => r.is_none() && final(model).selection_start == Some(line as usize)
                                && final(model).selection_end == Some(line as usize),
                        }
                    } else {
                        r.is_none() && final(model).selection_start.is_none()
                            && final(model).selection_end.is_none()
                    },
                    MouseEventKind::Drag => r.is_none() && final(model).log_scroll == m.log_scroll
                        && final(model).auto_scroll_logs == m.auto_scroll_logs
                        && final(model).selection_start == m.selection_start && if m.selection_start is Some {
                        final(model).selection_end == if inside_rows {
                            if line < m.last_logs_len {
                                Some(line as usize)
                            } else {
                                m.selection_end
                            }
                        } else if mouse.row < a.y {
                            Some(m.last_rendered_scroll)
                        } else {
                            let mv = m.last_rendered_scroll + sat_sub(a.height as usize, 1);
                            let last = sat_sub(m.last_logs_len, 1);
                            Some(
                                if mv <= last {
                                    mv as usize
                                } else {
                                    last
                                },
                            )
                        }
                    } else {
                        final(model).selection_end == m.selection_end
                    },
                    MouseEventKind::Other => r.is_none() && unmoved(m, *final(model)),
                }
            }),
    {
        let area = model.last_log_area;
        let h = area.height as usize;
        let ms = model.last_logs_len.saturating_sub(h) as u16;
        let inside_rows = area.y <= mouse.row && (mouse.row as u32) < (area.y as u32) + (area.height as u32);
        match mouse.kind {
            MouseEventKind::ScrollDown => {
                model.scroll_down(ms);
                None
            },
            MouseEventKind::ScrollUp => {
                model.scroll_up();
                None
            },
            MouseEventKind::Down => {
                if mouse.column >= area.x && inside_rows {
                    let line = model.last_rendered_scroll + (mouse.row - area.y) as usize;
                    if line < model.last_logs_len {
                        let col = (mouse.column - area.x) as usize;
                        match cached_urls_exec(&model.cache_urls, line) {
                            Some(us) => {
                                match url_at_column(us.as_slice(), col) {
                                    Some(u) => {
                                        proof {
                                            let i = choose|i: int|
                                                0 <= i < us@.len() && us@[i] == *u && u.start <= col < u.end
                                                    && forall|j: int| 0 <= j < i ==> !(#[trigger] us@[j].start <= col < us@[j].end);
                                            lemma_url_at(us@, col, i);
                                        }
                                        return Some(u.url.clone());
                                    },
                                    None => {
                                        proof {
                                            lemma_url_at(us@, col, us@.len() as int);
                                        }
                                    },
                                }
                            },
                            None => {},
                        }
                    }
                    model.selection_start = Some(line);
                    model.selection_end = Some(line);
                    None
                } else {
                    model.clear_selection();
                    None
                }
            },
            MouseEventKind::Drag => {
                if model.selection_start.is_some() {
                    if inside_rows {
                        let line = model.last_rendered_scroll + (mouse.row - area.y) as usize;
                        if line < model.last_logs_len {
                            model.selection_end = Some(line);
                        }
                    } else if mouse.row < area.y {
                        model.selection_end = Some(model.last_rendered_scroll);
                    } else {
                        let mv = model.last_rendered_scroll + h.saturating_sub(1);
                        let last = model.last_logs_len.saturating_sub(1);
                        model.selection_end = Some(if mv <= last {
                            mv
                        } else {
                            last
                        });
                    }
                }
                None
            },
            MouseEventKind::Other => None,
        }
    }
}

proof fn lemma_url_at(urls: Seq<UrlMatch>, col: usize, i: int)
    requires
        0 <= i <= urls.len(),
        forall|j: int| 0 <= j < i ==> !(#[trigger] urls[j].start <= col < urls[j].end),
        i < urls.len() ==> urls[i].start <= col < urls[i].end,
    ensures
        url_at(urls, col) == if i < urls.len() {
            Some(urls[i].url@)
        } else {
            None
        },
    decreases i,
{
    if i > 0 {
        assert(!(urls[0].start <= col < urls[0].end));
        assert forall|j: int| 0 <= j < i - 1 implies !(#[trigger] urls.drop_first()[j].start <= col < urls.drop_first()[j].end) by {
            assert(urls.drop_first()[j] == urls[j + 1]);
        }
        lemma_url_at(urls.drop_first(), col, i - 1);
    } else if urls.len() == 0 {
    }
}

/// The first URL under column `col` (by its text).
pub open spec fn url_at(urls: Seq<UrlMatch>, col: usize) -> Option<Seq<char>>
    decreases urls.len(),
{
    if urls.len() == 0 {
        None
    } else if urls[0].start <= col < urls[0].end {
        Some(urls[0].url@)
    } else {
        url_at(urls.drop_first(), col)
    }
}

// ── what the user is told ──────────────────────────────────────────────────

/// The message after restarting `id` from the logs tab.
pub fn restart_message(id: &str, result: &Result<(), String>) -> (r: String)
    ensures
        r@ == match result {
            Ok(()) => "Restarted "@ + id@,
            Err(e) => "Failed to restart "@ + id@ + ": "@ + e@,
        },
{
    match result {
        Ok(()) => concat2("Restarted ", id),
        Err(e) => concat4("Failed to restart ", id, ": ", e.as_str()),
    }
}

/// The message after flipping host mode of `name` (the new mode, or why it
/// could not be enabled) and restarting it.
pub fn host_mode_message(name: &str, toggled: &Result<bool, String>, restart: &Result<(), String>) -> (r: String)
    ensures
        r@ == match toggled {
            Err(e) => "Host mode not enabled for "@ + name@ + ": "@ + e@,
            Ok(on) => {
                let label = if *on {
                    "ENABLED"@
                } else {
                    "DISABLED"@
                };
                match restart {
                    Err(e) => "Host "@ + label + " but restart failed: "@ + e@,
                    Ok(()) => "Host mode "@ + label + " for "@ + name@ + " (restarting…)"@,
                }
            },
        },
{
    match toggled {
        Err(e) => concat4("Host mode not enabled for ", name, ": ", e.as_str()),
        Ok(on) => {
            let label = if *on {
                "ENABLED"
            } else {
                "DISABLED"
            };
            match restart {
                Err(e) => concat4("Host ", label, " but restart failed: ", e.as_str()),
                Ok(()) => {
                    let a = concat4("Host mode ", label, " for ", name);
                    concat2(a.as_str(), " (restarting…)")
                },
            }
        },
    }
}

/// The message after switching `name` to prod (or dev) mode and restarting it.
pub fn prod_mode_message(name: &str, prod: bool, restart: &Result<(), String>) -> (r: String)
    ensures
        r@ == {
            let label = if prod {
                "PROD"@
            } else {
                "DEV"@
            };
            match restart {
                Err(e) => "Mode "@ + label + " but restart failed: "@ + e@,
                Ok(()) => "Switched to "@ + label + " mode for "@ + name@ + " (restarting…)"@,
            }
        },
{
    let label = if prod {
        "PROD"
    } else {
        "DEV"
    };
    match restart {
        Err(e) => concat4("Mode ", label, " but restart failed: ", e.as_str()),
        Ok(()) => {
            let a = concat4("Switched to ", label, " mode for ", name);
            concat2(a.as_str(), " (restarting…)")
        },
    }
}

/// The message after trying to open `url`.
pub fn open_url_message(url: &str, result: &Result<(), String>) -> (r: String)
    ensures
        r@ == match result {
            Ok(()) => "Opened: "@ + url@,
            Err(e) => "Failed to open URL: "@ + e@,
        },
{
    match result {
        Ok(()) => concat2("Opened: ", url),
        Err(e) => concat2("Failed to open URL: ", e.as_str()),
    }
}

/// The message after copying the selection: `None` when there is no
/// clipboard.
pub fn copy_message(result: &Option<Result<(), String>>) -> (r: String)
    ensures
        r@ == match result {
            None => "Clipboard copy failed: no clipboard backend available"@,
            Some(Ok(())) => "Selected logs copied to clipboard"@,
            Some(Err(e)) => "Clipboard copy failed: "@ + e@ + " (is xclip/xsel installed?)"@,
        },
{
    match result {
        None => copy_str("Clipboard copy failed: no clipboard backend available"),
        Some(Ok(())) => copy_str("Selected logs copied to clipboard"),
        Some(Err(e)) => concat3("Clipboard copy failed: ", e.as_str(), " (is xclip/xsel installed?)"),
    }
}

} // verus!

