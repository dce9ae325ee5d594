//! The command line of the palette: editing it key by key, completing an
//! argument from the suggestions, and what to suggest for the word being
//! typed.
use crate::commands::{clamped_selection, compute_command_matches, palette_matches};
use crate::config::{file_name, join_path, strs};
use crate::keys::{KeyCode, KeyEvent};
use crate::text::{
    append_chars, chars_of, copy_str, ends_with, is_whitespace, is_ws, join_with, joined_with, sort_strings,
    sorted_strings, starts_with, string_of, views, words, words_of,
};
use vstd::prelude::*;

verus! {

/// The palette's command line.
pub struct CommandLine {
    /// Whether the palette is open.
    pub active: bool,
    /// The text typed.
    pub input: String,
    /// The cursor, as a character position in `input`.
    pub cursor: usize,
    /// Completions offered for the argument being typed.
    pub suggestions: Vec<String>,
    /// The highlighted completion (or palette entry).
    pub selected: usize,
    /// The palette entries (command, usage) matching the input.
    pub matches: Vec<(String, String)>,
}

pub struct LineView {
    pub active: bool,
    pub input: Seq<char>,
    pub cursor: nat,
    pub suggestions: Seq<Seq<char>>,
    pub selected: usize,
    pub matches: Seq<(Seq<char>, Seq<char>)>,
}

impl CommandLine {
    pub open spec fn view(&self) -> LineView {
        LineView {
            active: self.active,
            input: self.input@,
            cursor: self.cursor as nat,
            suggestions: strs(self.suggestions@),
            selected: self.selected,
            matches: self.matches@.map_values(|e: (String, String)| (e.0@, e.1@)),
        }
    }

    /// The cursor lies within the input.
    pub open spec fn wf(&self) -> bool {
        self.cursor <= self.input@.len()
    }
}

/// What the app does after a key in the palette.
pub enum PaletteAction {
    NoAction,
    /// Run this command line (the palette has closed).
    Execute(String),
    /// The input changed: recompute the suggestions.
    Refresh,
}

pub enum ActionView {
    NoAction,
    Execute(Seq<char>),
    Refresh,
}

impl PaletteAction {
    pub open spec fn view(&self) -> ActionView {
        match self {
            PaletteAction::NoAction => ActionView::NoAction,
            PaletteAction::Execute(s) => ActionView::Execute(s@),
            PaletteAction::Refresh => ActionView::Refresh,
        }
    }
}

// ── operations, as functions of the line ──────────────────────────────────

/// The line with the palette entries recomputed for its input and the
/// selection kept in range.
pub open spec fn matched(l: LineView) -> LineView {
    let m = palette_matches(l.input);
    LineView {
        matches: m,
        selected: clamped_selection(l.selected, l.suggestions.len() as usize, m.len() as usize),
        ..l
    }
}

/// Where the word before position `i` starts (scanning back past trailing
/// whitespace once `found` is false).
pub open spec fn word_start_from(s: Seq<char>, i: int, found: bool) -> int
    decreases i,
{
    if i <= 0 {
        0
    } else if is_ws(s[i - 1]) {
        if found {
            i
        } else {
            word_start_from(s, i - 1, false)
        }
    } else {
        word_start_from(s, i - 1, true)
    }
}

/// The line after deleting the word before the cursor (and the whitespace
/// after it).
pub open spec fn word_deleted(l: LineView) -> LineView {
    let start = word_start_from(l.input, l.cursor as int, false);
    LineView {
        input: l.input.take(start) + l.input.skip(l.cursor as int),
        cursor: start as nat,
        ..l
    }
}

/// The line after taking the highlighted suggestion for the argument being
/// typed (or as a new argument after a trailing space).
pub open spec fn suggestion_applied(l: LineView) -> LineView {
    if l.selected < l.suggestions.len() {
        let s = l.suggestions[l.selected as int];
        let parts = words(l.input);
        let parts2 = if ends_with(l.input, " "@) {
            parts.push(s)
        } else if parts.len() > 0 {
            parts.update(parts.len() - 1, s)
        } else {
            parts
        };
        let input = joined_with(parts2, " "@) + " "@;
        LineView { input, cursor: input.len(), suggestions: Seq::empty(), ..l }
    } else {
        l
    }
}

/// The line closed and cleared.
pub open spec fn closed(l: LineView) -> LineView {
    LineView { input: Seq::empty(), cursor: 0, active: false, ..l }
}

/// A key in the palette: the line before the palette entries are
/// recomputed, and what the app is asked to do.
pub open spec fn key_step(l: LineView, key: KeyEvent) -> (LineView, ActionView) {
    let n = l.suggestions.len() as int;
    let m = l.matches.len() as int;
    match key.code {
        KeyCode::Enter => if n > 0 {
            (suggestion_applied(l), ActionView::NoAction)
        } else {
            (closed(l), ActionView::Execute(l.input))
        },
        KeyCode::Esc => if n > 0 {
            (LineView { suggestions: Seq::empty(), ..l }, ActionView::NoAction)
        } else {
            (closed(l), ActionView::NoAction)
        },
        KeyCode::Tab => if n > 0 {
            (suggestion_applied(l), ActionView::NoAction)
        } else if m > 0 {
            let i = if l.selected < m - 1 {
                l.selected as int
            } else {
                m - 1
            };
            let input = l.matches[i].0;
            (LineView { input, cursor: input.len(), ..l }, ActionView::Refresh)
        } else {
            (l, ActionView::NoAction)
        },
        KeyCode::Down => if n > 0 {
            (LineView { selected: ((l.selected + 1) % n) as usize, ..l }, ActionView::NoAction)
        } else if m > 0 {
            (LineView { selected: ((l.selected + 1) % m) as usize, ..l }, ActionView::NoAction)
        } else {
            (l, ActionView::NoAction)
        },
        KeyCode::Up => if n > 0 {
            (LineView { selected: ((l.selected + n - 1) % n) as usize, ..l }, ActionView::NoAction)
        } else if m > 0 {
            (LineView { selected: ((l.selected + m - 1) % m) as usize, ..l }, ActionView::NoAction)
        } else {
            (l, ActionView::NoAction)
        },
        KeyCode::Char(c) => if c == 'h' && key.ctrl {
            if l.cursor == 0 {
                (l, ActionView::NoAction)
            } else {
                (word_deleted(l), ActionView::Refresh)
            }
        } else {
            (
                LineView {
                    input: l.input.take(l.cursor as int).push(c) + l.input.skip(l.cursor as int),
                    cursor: l.cursor + 1,
                    ..l
                },
                ActionView::Refresh,
            )
        },
        KeyCode::Backspace => if key.ctrl {
            if l.cursor == 0 {
                (l, ActionView::NoAction)
            } else {
                (word_deleted(l), ActionView::Refresh)
            }
        } else if l.cursor > 0 {
            (
                LineView {
                    input: l.input.take(l.cursor - 1) + l.input.skip(l.cursor as int),
                    cursor: (l.cursor - 1) as nat,
                    ..l
                },
                ActionView::Refresh,
            )
        } else {
            (l, ActionView::NoAction)
        },
        KeyCode::Delete => if l.cursor < l.input.len() {
            (
                LineView {
                    input: l.input.take(l.cursor as int) + l.input.skip(l.cursor as int + 1),
                    ..l
                },
                ActionView::Refresh,
            )
        } else {
            (l, ActionView::NoAction)
        },
        KeyCode::Left => if l.cursor > 0 {
            (LineView { cursor: (l.cursor - 1) as nat, ..l }, ActionView::NoAction)
        } else {
            (l, ActionView::NoAction)
        },
        KeyCode::Right => if l.cursor < l.input.len() {
            (LineView { cursor: l.cursor + 1, ..l }, ActionView::NoAction)
        } else {
            (l, ActionView::NoAction)
        },
        _ => (l, ActionView::NoAction),
    }
}

fn remove_range(v: &Vec<char>, a: usize, b: usize) -> (r: Vec<char>)
    requires
        a <= b <= v@.len(),
    ensures
        r@ == v@.take(a as int) + v@.skip(b as int),
{
    let mut r = crate::text::slice_vec(v.as_slice(), 0, a);
    let tail = crate::text::slice_vec(v.as_slice(), b, v.len());
    append_chars(&mut r, tail.as_slice());
    assert(v@.subrange(0, a as int) =~= v@.take(a as int));
    assert(v@.subrange(b as int, v@.len() as int) =~= v@.skip(b as int));
    r
}

impl CommandLine {
    pub fn new() -> (r: Self)
        ensures
            r.wf(),
            !r@.active,
            r@.input.len() == 0,
            r@.suggestions.len() == 0,
            r@.matches.len() == 0,
            r@.selected == 0,
    {
        let r = CommandLine {
            active: false,
            input: String::new(),
            cursor: 0,
            suggestions: Vec::new(),
            selected: 0,
            matches: Vec::new(),
        };
        assert(strs(r.suggestions@) =~= Seq::<Seq<char>>::empty());
        r
    }

    /// Recompute the palette entries for the input and keep the selection
    /// in range.
    pub fn update_matches(&mut self)
        requires
            old(self).wf(),
        ensures
            final(self).wf(),
            final(self)@ == matched(old(self)@),
    {
        self.matches = compute_command_matches(self.input.as_str());
        self.selected = crate::commands::clamp_selection(self.selected, self.suggestions.len(), self.matches.len());
    }

    /// Offer `found` as the suggestions (the first highlighted), or none.
    pub fn set_suggestions(&mut self, found: Option<Vec<String>>)
        ensures
            final(self)@ == match found {
                Some(v) => LineView { suggestions: strs(v@), selected: 0, ..old(self)@ },
                None => LineView { suggestions: Seq::empty(), ..old(self)@ },
            },
            final(self).wf() == old(self).wf(),
    {
        match found {
            Some(v) => {
                self.suggestions = v;
                self.selected = 0;
            },
            None => {
                self.suggestions = Vec::new();
                assert(strs(self.suggestions@) =~= Seq::<Seq<char>>::empty());
            },
        }
    }

    fn delete_word_backwards(&mut self)
        requires
            old(self).wf(),
            old(self).cursor > 0,
        ensures
            final(self).wf(),
            final(self)@ == word_deleted(old(self)@),
    {
        let c = chars_of(self.input.as_str());
        let mut i = self.cursor;
        let mut found = false;
        let mut done = false;
        let mut start: usize = 0;
        while i > 0 && !done
            invariant
                i <= self.cursor <= c@.len(),
                c@ == self.input@,
                start <= self.cursor,
                !done ==> start == 0,
                !done ==> word_start_from(c@, self.cursor as int, false) == word_start_from(
                    c@,
                    i as int,
                    found,
                ),
                done ==> start == word_start_from(c@, self.cursor as int, false),
            decreases i + (if done {
                0int
            } else {
                1int
            }),
        {
            if is_whitespace(c[i - 1]) && found {
                start = i;
                done = true;
            } else {
                if !is_whitespace(c[i - 1]) {
                    found = true;
                }
                i = i - 1;
            }
        }
        proof {
            if !done {
                assert(i == 0);
                assert(word_start_from(c@, self.cursor as int, false) == word_start_from(c@, i as int, found));
                assert(word_start_from(c@, 0, found) == 0);
            }
        }
        assert(start == word_start_from(c@, self.cursor as int, false));
        let r = remove_range(&c, start, self.cursor);
        self.input = string_of(r.as_slice());
        self.cursor = start;
    }

    fn apply_suggestion(&mut self)
        requires
            old(self).wf(),
        ensures
            final(self).wf(),
            final(self)@ == suggestion_applied(old(self)@),
    {
        if self.selected < self.suggestions.len() {
            let s = self.suggestions[self.selected].clone();
            let mut parts = words_of(self.input.as_str());
            let ghost p0 = strs(parts@);
            assert(p0 == words(self.input@));
            let ends = crate::text::ends_with_str(chars_of(self.input.as_str()).as_slice(), " ");
            if ends {
                parts.push(s);
                assert(strs(parts@) =~= p0.push(self@.suggestions[self.selected as int]));
            } else if parts.len() > 0 {
                let last = parts.len() - 1;
                parts.set(last, s);
                assert(strs(parts@) =~= p0.update(last as int, self@.suggestions[self.selected as int]));
            }
            let mut cs: Vec<Vec<char>> = Vec::new();
            let mut k: usize = 0;
            while k < parts.len()
                invariant
                    k <= parts@.len(),
                    views(cs@) == strs(parts@).take(k as int),
                decreases parts@.len() - k,
            {
                let ghost before = views(cs@);
                cs.push(chars_of(parts[k].as_str()));
                assert(views(cs@) =~= before.push(parts@[k as int]@));
                assert(strs(parts@).take(k + 1) =~= strs(parts@).take(k as int).push(parts@[k as int]@));
                k = k + 1;
            }
            assert(strs(parts@).take(parts@.len() as int) =~= strs(parts@));
            let mut line = join_with(cs.as_slice(), chars_of(" ").as_slice());
            line.push(' ');
            proof {
                reveal_strlit(" ");
                assert(line@ =~= joined_with(strs(parts@), " "@) + " "@);
            }
            self.input = string_of(line.as_slice());
            self.cursor = line.len();
            self.suggestions = Vec::new();
            assert(strs(self.suggestions@) =~= Seq::<Seq<char>>::empty());
        }
    }

    /// A key typed in the palette: edit the line, complete, move the
    /// highlight, close or run; the palette entries follow the input.
    pub fn handle_key(&mut self, key: KeyEvent) -> (r: PaletteAction)
        requires
            old(self).wf(),
        ensures
            final(self).wf(),
            r.view() == key_step(old(self)@, key).1,
            final(self)@ == matched(key_step(old(self)@, key).0),
    {
        let ghost l = self@;
        let n = self.suggestions.len();
        let m = self.matches.len();
        let len = chars_of(self.input.as_str()).len();
        let action = match key.code {
            KeyCode::Enter => {
                if n > 0 {
                    self.apply_suggestion();
                    PaletteAction::NoAction
                } else {
                    let input = self.input.clone();
                    self.input = String::new();
                    self.cursor = 0;
                    self.active = false;
                    PaletteAction::Execute(input)
                }
            },
            KeyCode::Esc => {
                if n > 0 {
                    self.suggestions = Vec::new();
                    assert(strs(self.suggestions@) =~= Seq::<Seq<char>>::empty());
                } else {
                    self.input = String::new();
                    self.cursor = 0;
                    self.active = false;
                }
                PaletteAction::NoAction
            },
            KeyCode::Tab => {
                if n > 0 {
                    self.apply_suggestion();
                    PaletteAction::NoAction
                } else if m > 0 {
                    let i = if self.selected < m - 1 {
                        self.selected
                    } else {
                        m - 1
                    };
                    let cmd = self.matches[i].0.clone();
                    self.cursor = chars_of(cmd.as_str()).len();
                    self.input = cmd;
                    PaletteAction::Refresh
                } else {
                    PaletteAction::NoAction
                }
            },
            KeyCode::Down => {
                if n > 0 {
                    self.selected = ((self.selected as u128 + 1) % (n as u128)) as usize;
                } else if m > 0 {
                    self.selected = ((self.selected as u128 + 1) % (m as u128)) as usize;
                }
                PaletteAction::NoAction
            },
            KeyCode::Up => {
                if n > 0 {
                    self.selected = ((self.selected as u128 + n as u128 - 1) % (n as u128)) as usize;
                } else if m > 0 {
                    self.selected = ((self.selected as u128 + m as u128 - 1) % (m as u128)) as usize;
                }
                PaletteAction::NoAction
            },
            KeyCode::Char(c) => {
                if c == 'h' && key.ctrl {
                    if self.cursor == 0 {
                        PaletteAction::NoAction
                    } else {
                        self.delete_word_backwards();
                        PaletteAction::Refresh
                    }
                } else {
                    let cs = chars_of(self.input.as_str());
                    let mut head = crate::text::slice_vec(cs.as_slice(), 0, self.cursor);
                    head.push(c);
                    let new_cursor = head.len();
                    let tail = crate::text::slice_vec(cs.as_slice(), self.cursor, cs.len());
                    append_chars(&mut head, tail.as_slice());
                    assert(cs@.subrange(0, self.cursor as int) =~= cs@.take(self.cursor as int));
                    assert(cs@.subrange(self.cursor as int, cs@.len() as int) =~= cs@.skip(self.cursor as int));
                    self.input = string_of(head.as_slice());
                    self.cursor = new_cursor;
                    PaletteAction::Refresh
                }
            },
            KeyCode::Backspace => {
                if key.ctrl {
                    if self.cursor == 0 {
                        PaletteAction::NoAction
                    } else {
                        self.delete_word_backwards();
                        PaletteAction::Refresh
                    }
                } else if self.cursor > 0 {
                    let cs = chars_of(self.input.as_str());
                    let r = remove_range(&cs, self.cursor - 1, self.cursor);
                    self.input = string_of(r.as_slice());
                    self.cursor = self.cursor - 1;
                    PaletteAction::Refresh
                } else {
                    PaletteAction::NoAction
                }
            },
            KeyCode::Delete => {
                if self.cursor < len {
                    let cs = chars_of(self.input.as_str());
                    let r = remove_range(&cs, self.cursor, self.cursor + 1);
                    self.input = string_of(r.as_slice());
                    PaletteAction::Refresh
                } else {
                    PaletteAction::NoAction
                }
            },
            KeyCode::Left => {
                if self.cursor > 0 {
                    self.cursor = self.cursor - 1;
                }
                PaletteAction::NoAction
            },
            KeyCode::Right => {
                if self.cursor < len {
                    self.cursor = self.cursor + 1;
                }
                PaletteAction::NoAction
            },
            _ => PaletteAction::NoAction,
        };
        assert(self@ == key_step(l, key).0);
        self.update_matches();
        action
    }
}

// ── suggestions ────────────────────────────────────────────────────────────

/// What to suggest for the argument being typed.
pub enum SuggestionRequest {
    /// Nothing.
    Clear,
    /// Project ids starting with this fragment.
    Ids(String),
    /// Directories for this path fragment.
    Paths(String),
}

pub enum RequestView {
    Clear,
    Ids(Seq<char>),
    Paths(Seq<char>),
}

impl SuggestionRequest {
    pub open spec fn view(&self) -> RequestView {
        match self {
            SuggestionRequest::Clear => RequestView::Clear,
            SuggestionRequest::Ids(f) => RequestView::Ids(f@),
            SuggestionRequest::Paths(f) => RequestView::Paths(f@),
        }
    }
}

/// What to suggest while `input` is typed: project ids for the id argument
/// of `env`, `project` and `template -a`; directories for the path argument
/// of `project` (not with `-d`) and `cd`; the fragment is the word being
/// typed (empty after a trailing space).
pub open spec fn suggestion_request_of(input: Seq<char>) -> RequestView {
    let parts = words(input);
    if parts.len() == 0 {
        RequestView::Clear
    } else {
        let cmd = parts[0];
        let trailing = ends_with(input, " "@);
        let n = parts.len();
        let fragment = if trailing {
            Seq::empty()
        } else {
            parts.last()
        };
        let id_arg = ((cmd == "env"@ || cmd == "project"@) && ((n == 1 && trailing) || (n == 2
            && !trailing))) || (cmd == "template"@ && ((n == 2 && trailing) || (n == 3 && !trailing)));
        let path_arg = (cmd == "project"@ && !parts.contains("-d"@) && ((n == 2 && trailing) || (n
            == 3 && !trailing))) || (cmd == "cd"@ && ((n == 1 && trailing) || (n == 2 && !trailing)));
        if id_arg {
            RequestView::Ids(fragment)
        } else if path_arg {
            RequestView::Paths(fragment)
        } else {
            RequestView::Clear
        }
    }
}

pub fn suggestion_request(input: &str) -> (r: SuggestionRequest)
    ensures
        r.view() == suggestion_request_of(input@),
{
    let parts = words_of(input);
    let ghost pv = strs(parts@);
    assert(pv == words(input@));
    if parts.len() == 0 {
        return SuggestionRequest::Clear;
    }
    let c = chars_of(parts[0].as_str());
    let cmd = c.as_slice();
    let trailing = crate::text::ends_with_str(chars_of(input).as_slice(), " ");
    let n = parts.len();
    let fragment = if trailing {
        String::new()
    } else {
        parts[n - 1].clone()
    };
    let is_env_or_project = crate::text::eq_str(cmd, "env") || crate::text::eq_str(cmd, "project");
    let id_arg = (is_env_or_project && ((n == 1 && trailing) || (n == 2 && !trailing))) || (
    crate::text::eq_str(cmd, "template") && ((n == 2 && trailing) || (n == 3 && !trailing)));
    if id_arg {
        return SuggestionRequest::Ids(fragment);
    }
    let mut has_d = false;
    let mut k: usize = 0;
    while k < parts.len()
        invariant
            k <= parts@.len(),
            pv == strs(parts@),
            has_d == exists|q: int| 0 <= q < k && pv[q] == "-d"@,
        decreases parts@.len() - k,
    {
        let w = chars_of(parts[k].as_str());
        assert(pv[k as int] == w@);
        if crate::text::eq_str(w.as_slice(), "-d") {
            has_d = true;
        }
        k = k + 1;
    }
    assert(has_d == pv.contains("-d"@));
    let path_arg = (crate::text::eq_str(cmd, "project") && !has_d && ((n == 2 && trailing) || (n == 3
        && !trailing))) || (crate::text::eq_str(cmd, "cd") && ((n == 1 && trailing) || (n == 2
        && !trailing)));
    if path_arg {
        SuggestionRequest::Paths(fragment)
    } else {
        SuggestionRequest::Clear
    }
}

/// The strings of `v` that start with `prefix`, in order.
pub open spec fn with_prefix(v: Seq<Seq<char>>, prefix: Seq<char>) -> Seq<Seq<char>> {
    v.filter(|s: Seq<char>| starts_with(s, prefix))
}

/// The project ids starting with `fragment`, in string order.
pub fn id_suggestions(ids: &[String], fragment: &str) -> (r: Vec<String>)
    ensures
        exists|idx: Seq<int>|
            sorted_strings(with_prefix(strs(ids@), fragment@), strs(r@), idx),
{
    let f = chars_of(fragment);
    let ghost keep = |s: Seq<char>| starts_with(s, fragment@);
    let ghost iv = strs(ids@);
    let mut kept: Vec<String> = Vec::new();
    let mut i: usize = 0;
    while i < ids.len()
        invariant
            i <= ids@.len(),
            f@ == fragment@,
            iv == strs(ids@),
            keep == (|s: Seq<char>| starts_with(s, fragment@)),
            strs(kept@) == iv.take(i as int).filter(keep),
        decreases ids@.len() - i,
    {
        proof {
            assert(iv.take(i + 1).drop_last() =~= iv.take(i as int));
            assert(iv.take(i + 1).last() == ids@[i as int]@);
            reveal_with_fuel(Seq::filter, 1);
        }
        if crate::text::has_prefix(chars_of(ids[i].as_str()).as_slice(), f.as_slice()) {
            let ghost before = strs(kept@);
            kept.push(ids[i].clone());
            assert(strs(kept@) =~= before.push(ids@[i as int]@));
        }
        i = i + 1;
    }
    assert(iv.take(iv.len() as int) =~= iv);
    assert((|s: Seq<char>| starts_with(s, fragment@)) =~= keep);
    assert(with_prefix(iv, fragment@) == iv.filter(keep));
    sort_strings(kept)
}

/// A typed path with a leading `~` expanded: every `~` becomes the home
/// directory (when known).
pub open spec fn expanded(fragment: Seq<char>, home: Option<Seq<char>>) -> Seq<char> {
    if starts_with(fragment, "~"@) && home is Some {
        crate::engine::launch::replaced(fragment, "~"@, home->0)
    } else {
        fragment
    }
}

/// `Path::parent` of a path that does not end in `/`: what comes before
/// its last `/` (the root for a top-level path, empty for a bare name).
pub open spec fn parent_dir(p: Seq<char>) -> Seq<char> {
    match crate::detect::names::last_index(p, '/') {
        Some(i) => if i == 0 {
            "/"@
        } else {
            p.take(i)
        },
        None => Seq::empty(),
    }
}

/// The directory to list and the name prefix to match for a path fragment:
/// the fragment itself (or `.` when empty) when it ends in `/`, else its
/// parent and its last component.
pub open spec fn path_target(p: Seq<char>) -> (Seq<char>, Seq<char>) {
    if ends_with(p, "/"@) || p.len() == 0 {
        (if p.len() == 0 {
            "."@
        } else {
            p
        }, Seq::empty())
    } else {
        (
            parent_dir(p),
            match file_name(p) {
                Some(f) => f,
                None => Seq::empty(),
            },
        )
    }
}

/// Where to look for directories completing `fragment`: the directory to
/// list and the prefix their names must have.
pub fn path_lookup(fragment: &str, home: Option<&str>) -> (r: (String, String))
    ensures
        (r.0@, r.1@) == path_target(
            expanded(
                fragment@,
                match home {
                    Some(h) => Some(h@),
                    None => None,
                },
            ),
        ),
{
    let f = chars_of(fragment);
    let p: Vec<char> = match home {
        Some(h) => {
            if crate::text::starts_with_str(f.as_slice(), "~") {
                proof {
                    reveal_strlit("~");
                }
                crate::engine::launch::replace_all(f.as_slice(), chars_of("~").as_slice(), chars_of(h).as_slice())
            } else {
                f
            }
        },
        None => f,
    };
    if p.len() == 0 || crate::text::ends_with_str(p.as_slice(), "/") {
        let dir = if p.len() == 0 {
            crate::text::copy_str(".")
        } else {
            string_of(p.as_slice())
        };
        return (dir, String::new());
    }
    let s = string_of(p.as_slice());
    let term: String = match crate::config::path_file_name(s.as_str()) {
        Some(t) => string_of(t.as_slice()),
        None => String::new(),
    };
    let mut k = p.len();
    assert(p@.take(k as int) =~= p@);
    while k > 0 && p[k - 1] != '/'
        invariant
            k <= p@.len(),
            crate::detect::names::last_index(p@, '/') == crate::detect::names::last_index(p@.take(k as int), '/'),
        decreases k,
    {
        assert(p@.take(k as int).last() == p@[k - 1]);
        assert(p@.take(k as int).drop_last() =~= p@.take(k - 1));
        k = k - 1;
    }
    let dir = if k == 0 {
        String::new()
    } else if k == 1 {
        proof {
            assert(p@.take(1).last() == p@[0]);
        }
        crate::text::copy_str("/")
    } else {
        proof {
            assert(p@.take(k as int).last() == p@[k - 1]);
        }
        string_of(crate::text::slice_vec(p.as_slice(), 0, k - 1).as_slice())
    };
    proof {
        if k > 1 {
            assert(p@.subrange(0, k - 1) =~= p@.take(k - 1));
        }
    }
    (dir, term)
}

/// The directories in `dir` whose names start with `term`, as full paths
/// ending in `/`, in string order.
pub open spec fn dir_entry_path(dir: Seq<char>, name: Seq<char>) -> Seq<char> {
    let full = join_path(dir, name);
    if ends_with(full, "/"@) {
        full
    } else {
        full + "/"@
    }
}

/// The full paths of the directories named `names` in `dir` that start with `term`.
pub open spec fn completions(dir: Seq<char>, names: Seq<Seq<char>>, term: Seq<char>) -> Seq<Seq<char>> {
    with_prefix(names, term).map_values(|s: Seq<char>| dir_entry_path(dir, s))
}

pub fn path_suggestions(dir: &str, names: &[String], term: &str) -> (r: Vec<String>)
    ensures
        exists|idx: Seq<int>| sorted_strings(completions(dir@, strs(names@), term@), strs(r@), idx),
{
    let t = chars_of(term);
    let ghost keep = |s: Seq<char>| starts_with(s, term@);
    let ghost full = |s: Seq<char>| dir_entry_path(dir@, s);
    let ghost nv = strs(names@);
    let mut found: Vec<String> = Vec::new();
    let mut i: usize = 0;
    while i < names.len()
        invariant
            i <= names@.len(),
            t@ == term@,
            nv == strs(names@),
            keep == (|s: Seq<char>| starts_with(s, term@)),
            full == (|s: Seq<char>| dir_entry_path(dir@, s)),
            strs(found@) == nv.take(i as int).filter(keep).map_values(full),
        decreases names@.len() - i,
    {
        proof {
            assert(nv.take(i + 1).drop_last() =~= nv.take(i as int));
            assert(nv.take(i + 1).last() == names@[i as int]@);
            reveal_with_fuel(Seq::filter, 1);
        }
        if crate::text::has_prefix(chars_of(names[i].as_str()).as_slice(), t.as_slice()) {
            let mut joined: Vec<char> = chars_of(dir);
            if joined.len() > 0 && joined[joined.len() - 1] != '/' {
                joined.push('/');
            }
            append_chars(&mut joined, chars_of(names[i].as_str()).as_slice());
            assert(joined@ =~= join_path(dir@, names@[i as int]@));
            if !crate::text::ends_with_str(joined.as_slice(), "/") {
                joined.push('/');
                proof {
                    reveal_strlit("/");
                }
            }
            assert(joined@ == dir_entry_path(dir@, names@[i as int]@));
            assert(full(names@[i as int]@) == dir_entry_path(dir@, names@[i as int]@));
            let ghost before = strs(found@);
            found.push(string_of(joined.as_slice()));
            assert(strs(found@) =~= before.push(full(names@[i as int]@)));
            assert(nv.take(i as int).filter(keep).push(names@[i as int]@).map_values(full) =~= nv.take(
                i as int,
            ).filter(keep).map_values(full).push(full(names@[i as int]@)));
        }
        i = i + 1;
    }
    assert(nv.take(nv.len() as int) =~= nv);
    assert((|s: Seq<char>| starts_with(s, term@)) =~= keep);
    assert((|s: Seq<char>| dir_entry_path(dir@, s)) =~= full);
    assert(completions(dir@, nv, term@) == nv.filter(keep).map_values(full));
    sort_strings(found)
}

// ── how the palette is laid out ────────────────────────────────────────────

pub open spec fn sat_sub16(a: int, b: int) -> int {
    if a >= b {
        a - b
    } else {
        0
    }
}

pub open spec fn min16(a: int, b: int) -> int {
    if a <= b {
        a
    } else {
        b
    }
}

pub open spec fn max16(a: int, b: int) -> int {
    if a >= b {
        a
    } else {
        b
    }
}

/// The palette panel on a terminal area at `(x, y)` of `w` by `h` cells, as
/// `(x, y, width, height, list rows)`: between the 3-row header and the
/// footer row, 80 cells wide at most (48 at least), with room for up to 14
/// entries (3 at least) plus its title, input and hint rows; centred. It
/// depends on the terminal alone, never on what is typed.
pub open spec fn palette_panel(x: u16, y: u16, w: u16, h: u16) -> (int, int, int, int, int) {
    let avail_h = sat_sub16(h as int, 4);
    let avail_y = y + 3;
    let panel_w = max16(min16(80, sat_sub16(w as int, 4)), 48);
    let list_h = max16(min16(14, sat_sub16(avail_h, 5)), 3);
    let panel_h = max16(min16(list_h + 4, avail_h), 5);
    (x + sat_sub16(w as int, panel_w) / 2, avail_y + sat_sub16(avail_h, panel_h) / 2, panel_w, panel_h, list_h)
}

pub fn palette_geometry(x: u16, y: u16, w: u16, h: u16) -> (r: (u16, u16, u16, u16, u16))
    requires
        x as int + w as int <= u16::MAX,
        y as int + h as int + 3 <= u16::MAX,
    ensures
        (r.0 as int, r.1 as int, r.2 as int, r.3 as int, r.4 as int) == palette_panel(x, y, w, h),
{
    let avail_h = h.saturating_sub(4);
    let avail_y = y + 3;
    let panel_w: u16 = if w.saturating_sub(4) < 80 {
        w.saturating_sub(4)
    } else {
        80
    };
    let panel_w: u16 = if panel_w < 48 {
        48
    } else {
        panel_w
    };
    let room = avail_h.saturating_sub(5);
    let list_h: u16 = if room < 14 {
        room
    } else {
        14
    };
    let list_h: u16 = if list_h < 3 {
        3
    } else {
        list_h
    };
    let panel_h: u16 = if list_h + 4 < avail_h {
        list_h + 4
    } else {
        avail_h
    };
    let panel_h: u16 = if panel_h < 5 {
        5
    } else {
        panel_h
    };
    let px = x + w.saturating_sub(panel_w) / 2;
    let py = avail_y + avail_h.saturating_sub(panel_h) / 2;
    (px, py, panel_w, panel_h, list_h)
}

/// The entries shown of `total` in `rows` rows around the selection, as the
/// first and one past the last: as many as fit, the selection kept in the
/// middle where it can be.
pub open spec fn list_window(total: usize, rows: u16, selected: usize) -> (int, int) {
    let vis: int = min16((total as u16) as int, rows as int);
    if total == 0 {
        (0, 0)
    } else {
        let start = min16(sat_sub16(selected as int, vis / 2), total - vis);
        (start, min16(start + vis, total as int))
    }
}

pub fn palette_window(total: usize, rows: u16, selected: usize) -> (r: (usize, usize))
    ensures
        (r.0 as int, r.1 as int) == list_window(total, rows, selected),
{
    let t16 = total as u16;
    let vis: usize = if t16 < rows {
        t16 as usize
    } else {
        rows as usize
    };
    if total == 0 {
        return (0, 0);
    }
    assert(vis <= total) by (bit_vector)
        requires
            t16 == total as u16,
            vis == t16 || vis <= t16,
            total > 0;
    let back = selected.saturating_sub(vis / 2);
    let last = total - vis;
    let start = if back < last {
        back
    } else {
        last
    };
    let end = if start + vis < total {
        start + vis
    } else {
        total
    };
    (start, end)
}

/// The window always shows the selected entry (when there are entries, they
/// fit the count of a terminal row index, and there is a row for them).
pub proof fn law_window_shows_selection(total: usize, rows: u16, selected: usize)
    requires
        selected < total <= u16::MAX,
        rows > 0,
    ensures
        list_window(total, rows, selected).0 <= selected < list_window(total, rows, selected).1,
{
    assert((total as u16) as int == total as int) by (bit_vector)
        requires total <= 0xffff;
}

/// The palette's title: the entries offered, and the text typed when
/// filtering commands.
pub open spec fn palette_title_of(input: Seq<char>, suggesting: bool) -> Seq<char> {
    if !suggesting {
        if input.len() == 0 {
            " Commands "@
        } else {
            " Commands: \""@ + input + "\" "@
        }
    } else if starts_with(input, "env"@) || starts_with(input, "project"@) {
        " Project IDs "@
    } else {
        " Paths "@
    }
}

pub fn palette_title(input: &str, suggesting: bool) -> (r: String)
    ensures
        r@ == palette_title_of(input@, suggesting),
{
    let cs = chars_of(input);
    if !suggesting {
        if cs.len() == 0 {
            copy_str(" Commands ")
        } else {
            let mut t = chars_of(" Commands: \"");
            append_chars(&mut t, cs.as_slice());
            append_chars(&mut t, chars_of("\" ").as_slice());
            string_of(t.as_slice())
        }
    } else if crate::text::starts_with_str(cs.as_slice(), "env") || crate::text::starts_with_str(cs.as_slice(), "project") {
        copy_str(" Project IDs ")
    } else {
        copy_str(" Paths ")
    }
}

} // verus!
