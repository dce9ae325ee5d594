//! `.env` editor tab: a line buffer with a cursor (`cursor_x` is a byte
//! offset into the current line).
use crate::keys::{KeyCode, KeyEvent};
use crate::text::{
    joined,
    byte_len, byte_len_of, char_index, char_index_of_byte, chars_of, is_boundary, lines_chars,
    lines_of, push_char, split_on, string_of,
};
use vstd::prelude::*;

verus! {

pub struct EnvModel {
    pub project_id: String,
    pub file_path: String,
    pub lines: Vec<String>,
    pub cursor_y: usize,
    pub cursor_x: usize,
    pub scroll_offset: usize,
}

/// The characters of each string.
pub open spec fn string_views(v: Seq<String>) -> Seq<Seq<char>> {
    v.map_values(|s: String| s@)
}

pub open spec fn min(a: usize, b: nat) -> usize {
    if a <= b {
        a
    } else {
        b as usize
    }
}

/// After Up: the line above, the column kept within it.
pub open spec fn up_moved(a: EnvModel, b: EnvModel) -> bool {
    &&& b.lines == a.lines
    &&& a.cursor_y > 0 ==> b.cursor_y == a.cursor_y - 1 && b.cursor_x == min(a.cursor_x, byte_len(a.lines@[a.cursor_y - 1]@))
    &&& a.cursor_y == 0 ==> b.cursor_y == 0 && b.cursor_x == a.cursor_x
    &&& b.project_id == a.project_id
    &&& b.file_path == a.file_path
    &&& b.scroll_offset == a.scroll_offset
}

/// After Down: the line below, the column kept within it.
pub open spec fn down_moved(a: EnvModel, b: EnvModel) -> bool {
    &&& b.lines == a.lines
    &&& a.cursor_y < a.lines@.len() - 1 ==> b.cursor_y == a.cursor_y + 1 && b.cursor_x == min(a.cursor_x, byte_len(a.lines@[a.cursor_y + 1]@))
    &&& a.cursor_y >= a.lines@.len() - 1 ==> b.cursor_y == a.cursor_y && b.cursor_x == a.cursor_x
    &&& b.project_id == a.project_id
    &&& b.file_path == a.file_path
    &&& b.scroll_offset == a.scroll_offset
}

/// After Left: one byte left, or the end of the line above.
pub open spec fn left_moved(a: EnvModel, b: EnvModel) -> bool {
    &&& b.lines == a.lines
    &&& a.cursor_x > 0 ==> b.cursor_y == a.cursor_y && b.cursor_x == a.cursor_x - 1
    &&& a.cursor_x == 0 && a.cursor_y > 0 ==> b.cursor_y == a.cursor_y - 1 && b.cursor_x == byte_len(a.lines@[a.cursor_y - 1]@)
    &&& a.cursor_x == 0 && a.cursor_y == 0 ==> b.cursor_y == 0 && b.cursor_x == 0
    &&& b.project_id == a.project_id
    &&& b.file_path == a.file_path
    &&& b.scroll_offset == a.scroll_offset
}

/// After Right: one byte right, or the start of the line below.
pub open spec fn right_moved(a: EnvModel, b: EnvModel) -> bool {
    &&& b.lines == a.lines
    &&& a.cursor_x < byte_len(a.lines@[a.cursor_y as int]@) ==> b.cursor_y == a.cursor_y && b.cursor_x == a.cursor_x + 1
    &&& a.cursor_x >= byte_len(a.lines@[a.cursor_y as int]@) && a.cursor_y < a.lines@.len() - 1 ==> b.cursor_y == a.cursor_y + 1 && b.cursor_x == 0
    &&& a.cursor_x >= byte_len(a.lines@[a.cursor_y as int]@) && a.cursor_y >= a.lines@.len() - 1 ==> b.cursor_y == a.cursor_y && b.cursor_x == a.cursor_x
    &&& b.project_id == a.project_id
    &&& b.file_path == a.file_path
    &&& b.scroll_offset == a.scroll_offset
}

/// After typing `c`: it is inserted at the cursor, which steps one byte
/// right.
pub open spec fn char_inserted(a: EnvModel, b: EnvModel, c: char) -> bool {
    &&& ({
        let line = a.lines@[a.cursor_y as int]@;
        let k = char_index(line, a.cursor_x as nat);
        b.text() == a.text().update(a.cursor_y as int, line.take(k) + seq![c] + line.skip(k))
    })
    &&& b.cursor_y == a.cursor_y
    &&& b.cursor_x == a.cursor_x + 1
    &&& b.project_id == a.project_id
    &&& b.file_path == a.file_path
    &&& b.scroll_offset == a.scroll_offset
}

/// After Backspace: the character before the cursor deleted, or the line
/// joined onto the one above.
pub open spec fn backspaced(a: EnvModel, b: EnvModel) -> bool {
    &&& a.cursor_x > 0 ==> ({
        let line = a.lines@[a.cursor_y as int]@;
        let k = char_index(line, (a.cursor_x - 1) as nat);
        &&& b.text() == a.text().update(a.cursor_y as int, line.take(k) + line.skip(k + 1))
        &&& b.cursor_y == a.cursor_y
        &&& b.cursor_x == a.cursor_x - 1
    })
    &&& a.cursor_x == 0 && a.cursor_y > 0 ==> ({
        let y = a.cursor_y as int;
        let t = a.text();
        &&& b.text() == t.update(y - 1, t[y - 1] + t[y]).remove(y)
        &&& b.cursor_y == y - 1
        &&& b.cursor_x == byte_len(t[y - 1])
    })
    &&& a.cursor_x == 0 && a.cursor_y == 0 ==> b.text() == a.text() && b.cursor_y == 0 && b.cursor_x == 0
    &&& b.project_id == a.project_id
    &&& b.file_path == a.file_path
    &&& b.scroll_offset == a.scroll_offset
}

/// After Enter: the line split at the cursor, which moves to the start of
/// the new line.
pub open spec fn newline_inserted(a: EnvModel, b: EnvModel) -> bool {
    &&& ({
        let y = a.cursor_y as int;
        let line = a.lines@[y]@;
        let k = char_index(line, a.cursor_x as nat);
        b.text() == a.text().update(y, line.take(k)).insert(y + 1, line.skip(k))
    })
    &&& b.cursor_y == a.cursor_y + 1
    &&& b.cursor_x == 0
    &&& b.project_id == a.project_id
    &&& b.file_path == a.file_path
    &&& b.scroll_offset == a.scroll_offset
}

/// The character index of a boundary is the only one at that byte offset.
proof fn lemma_char_index_at(s: Seq<char>, k: int)
    requires
        0 <= k <= s.len(),
    ensures
        is_boundary(s, byte_len(s.take(k))),
        char_index(s, byte_len(s.take(k))) == k,
{
    let b = byte_len(s.take(k));
    assert(is_boundary(s, b));
    let j = char_index(s, b);
    if j < k {
        crate::text::lemma_byte_len_strict(s, j, k);
    } else if k < j {
        crate::text::lemma_byte_len_strict(s, k, j);
    }
}

/// Typing a character and then deleting it with Backspace gives back the
/// buffer and the cursor as they were.
pub proof fn law_backspace_undoes_typing(a: EnvModel, b: EnvModel, c: char, d: EnvModel)
    requires
        a.wf(),
        is_boundary(a.lines@[a.cursor_y as int]@, a.cursor_x as nat),
        char_inserted(a, b, c),
        backspaced(b, d),
    ensures
        d.text() == a.text(),
        d.cursor_y == a.cursor_y,
        d.cursor_x == a.cursor_x,
{
    let y = a.cursor_y as int;
    let line = a.lines@[y]@;
    let k = char_index(line, a.cursor_x as nat);
    let typed = line.take(k) + seq![c] + line.skip(k);
    assert(a.text()[y] == line);
    assert(b.text()[y] == typed);
    assert(typed.take(k) =~= line.take(k));
    lemma_char_index_at(typed, k);
    assert(b.lines@.len() == b.text().len());
    assert(b.lines@[y]@ == typed);
    assert(typed.take(k) + typed.skip(k + 1) =~= line);
    assert(d.text() =~= a.text());
}

/// Splitting a line with Enter and then pressing Backspace at the start of
/// the new line joins it back: the buffer and the cursor are as they were.
pub proof fn law_backspace_undoes_newline(a: EnvModel, b: EnvModel, d: EnvModel)
    requires
        a.wf(),
        is_boundary(a.lines@[a.cursor_y as int]@, a.cursor_x as nat),
        newline_inserted(a, b),
        backspaced(b, d),
    ensures
        d.text() == a.text(),
        d.cursor_y == a.cursor_y,
        d.cursor_x == a.cursor_x,
{
    let y = a.cursor_y as int;
    let line = a.lines@[y]@;
    let k = char_index(line, a.cursor_x as nat);
    let t = b.text();
    assert(a.text()[y] == line);
    assert(t[y] == line.take(k));
    assert(t[y + 1] == line.skip(k));
    assert(line.take(k) + line.skip(k) =~= line);
    assert(d.text() =~= a.text());
}

/// The buffer a text loads into: its lines, or one empty line when it has
/// none.
pub open spec fn loaded_text(content: Seq<char>) -> Seq<Seq<char>> {
    if lines_of(content).len() == 0 {
        seq![Seq::<char>::empty()]
    } else {
        lines_of(content)
    }
}

/// Reading back a loaded buffer gives its lines joined with `\n`; for a
/// text without `\r` that does not end in a line break, the text itself.
pub proof fn law_content_after_load(content: Seq<char>)
    ensures
        joined(loaded_text(content)) == joined(lines_of(content)),
        !content.contains('\r') && !(content.len() > 0 && content.last() == '\n') ==> joined(
            loaded_text(content),
        ) == content,
{
    if !content.contains('\r') && !(content.len() > 0 && content.last() == '\n') {
        if content.len() == 0 {
            assert(split_on(content, '\n') == seq![Seq::<char>::empty()]);
            assert(lines_of(content) =~= Seq::<Seq<char>>::empty());
        } else {
            crate::text::lemma_lines_of_plain(content);
            crate::text::lemma_joined_split(content);
            crate::text::lemma_split_on_nonempty(content, '\n');
        }
    }
}

impl EnvModel {
    pub open spec fn text(&self) -> Seq<Seq<char>> {
        string_views(self.lines@)
    }

    /// The cursor sits on a line of the buffer.
    pub open spec fn wf(&self) -> bool {
        self.cursor_y < self.lines@.len()
    }

    pub fn new() -> (m: Self)
        ensures
            m.project_id@ == Seq::<char>::empty(),
            m.file_path@ == Seq::<char>::empty(),
            m.text() == seq![Seq::<char>::empty()],
            m.cursor_y == 0,
            m.cursor_x == 0,
            m.scroll_offset == 0,
    {
        let lines = vec![String::new()];
        assert(string_views(lines@) =~= seq![Seq::<char>::empty()]);
        Self {
            project_id: String::new(),
            file_path: String::new(),
            lines,
            cursor_y: 0,
            cursor_x: 0,
            scroll_offset: 0,
        }
    }

    /// Load a file's content: its lines (one empty line for empty content),
    /// cursor and scroll at the top.
    pub fn load(&mut self, project_id: String, file_path: String, content: String)
        ensures
            final(self).project_id == project_id,
            final(self).file_path == file_path,
            final(self).text() == loaded_text(content@),
            final(self).cursor_y == 0,
            final(self).cursor_x == 0,
            final(self).scroll_offset == 0,
    {
        self.project_id = project_id;
        self.file_path = file_path;
        let cs = chars_of(content.as_str());
        let ls = lines_chars(cs.as_slice());
        let mut lines: Vec<String> = Vec::new();
        let mut i: usize = 0;
        while i < ls.len()
            invariant
                i <= ls@.len(),
                crate::text::views(ls@) == lines_of(content@),
                string_views(lines@) == crate::text::views(ls@).take(i as int),
            decreases ls@.len() - i,
        {
            let s = string_of(ls[i].as_slice());
            let ghost before = lines@;
            lines.push(s);
            assert(string_views(lines@) =~= string_views(before).push(ls@[i as int]@));
            assert(crate::text::views(ls@).take(i + 1) =~= crate::text::views(ls@).take(
                i as int,
            ).push(ls@[i as int]@));
            i = i + 1;
        }
        assert(crate::text::views(ls@).take(ls@.len() as int) =~= crate::text::views(ls@));
        if lines.len() == 0 {
            lines.push(String::new());
            assert(string_views(lines@) =~= seq![Seq::<char>::empty()]);
        }
        self.lines = lines;
        self.cursor_y = 0;
        self.cursor_x = 0;
        self.scroll_offset = 0;
    }

    fn line_len(&self, y: usize) -> (n: usize)
        requires
            y < self.lines@.len(),
        ensures
            n == byte_len(self.lines@[y as int]@),
    {
        crate::text::str_byte_len(self.lines[y].as_str())
    }

    pub fn move_up(&mut self)
        requires
            old(self).cursor_y <= old(self).lines@.len(),
        ensures
            final(self).lines == old(self).lines,
            old(self).cursor_y > 0 ==> final(self).cursor_y == old(self).cursor_y - 1
                && final(self).cursor_x == min(
                old(self).cursor_x,
                byte_len(old(self).lines@[old(self).cursor_y - 1]@),
            ),
            old(self).cursor_y == 0 ==> final(self).cursor_y == 0 && final(self).cursor_x == old(
                self,
            ).cursor_x,
            final(self).project_id == old(self).project_id,
            final(self).file_path == old(self).file_path,
            final(self).scroll_offset == old(self).scroll_offset,
            up_moved(*old(self), *final(self)),
    {
        if self.cursor_y > 0 {
            self.cursor_y = self.cursor_y - 1;
            let n = self.line_len(self.cursor_y);
            if n < self.cursor_x {
                self.cursor_x = n;
            }
        }
    }

    pub fn move_down(&mut self)
        requires
            old(self).lines@.len() > 0,
        ensures
            final(self).lines == old(self).lines,
            old(self).cursor_y < old(self).lines@.len() - 1 ==> final(self).cursor_y == old(
                self,
            ).cursor_y + 1 && final(self).cursor_x == min(
                old(self).cursor_x,
                byte_len(old(self).lines@[old(self).cursor_y + 1]@),
            ),
            old(self).cursor_y >= old(self).lines@.len() - 1 ==> final(self).cursor_y == old(
                self,
            ).cursor_y && final(self).cursor_x == old(self).cursor_x,
            final(self).project_id == old(self).project_id,
            final(self).file_path == old(self).file_path,
            final(self).scroll_offset == old(self).scroll_offset,
            down_moved(*old(self), *final(self)),
    {
        if self.cursor_y < self.lines.len() - 1 {
            self.cursor_y = self.cursor_y + 1;
            let n = self.line_len(self.cursor_y);
            if n < self.cursor_x {
                self.cursor_x = n;
            }
        }
    }

    pub fn move_left(&mut self)
        requires
            old(self).cursor_y <= old(self).lines@.len(),
        ensures
            final(self).lines == old(self).lines,
            old(self).cursor_x > 0 ==> final(self).cursor_y == old(self).cursor_y
                && final(self).cursor_x == old(self).cursor_x - 1,
            old(self).cursor_x == 0 && old(self).cursor_y > 0 ==> final(self).cursor_y == old(
                self,
            ).cursor_y - 1 && final(self).cursor_x == byte_len(
                old(self).lines@[old(self).cursor_y - 1]@,
            ),
            old(self).cursor_x == 0 && old(self).cursor_y == 0 ==> final(self).cursor_y == 0
                && final(self).cursor_x == 0,
            final(self).project_id == old(self).project_id,
            final(self).file_path == old(self).file_path,
            final(self).scroll_offset == old(self).scroll_offset,
            left_moved(*old(self), *final(self)),
    {
        if self.cursor_x > 0 {
            self.cursor_x = self.cursor_x - 1;
        } else if self.cursor_y > 0 {
            self.cursor_y = self.cursor_y - 1;
            self.cursor_x = self.line_len(self.cursor_y);
        }
    }

    pub fn move_right(&mut self)
        requires
            old(self).wf(),
        ensures
            final(self).lines == old(self).lines,
            old(self).cursor_x < byte_len(old(self).lines@[old(self).cursor_y as int]@)
                ==> final(self).cursor_y == old(self).cursor_y && final(self).cursor_x == old(
                self,
            ).cursor_x + 1,
            old(self).cursor_x >= byte_len(old(self).lines@[old(self).cursor_y as int]@)
                && old(self).cursor_y < old(self).lines@.len() - 1 ==> final(self).cursor_y == old(
                self,
            ).cursor_y + 1 && final(self).cursor_x == 0,
            old(self).cursor_x >= byte_len(old(self).lines@[old(self).cursor_y as int]@)
                && old(self).cursor_y >= old(self).lines@.len() - 1 ==> final(self).cursor_y
                == old(self).cursor_y && final(self).cursor_x == old(self).cursor_x,
            final(self).project_id == old(self).project_id,
            final(self).file_path == old(self).file_path,
            final(self).scroll_offset == old(self).scroll_offset,
            right_moved(*old(self), *final(self)),
    {
        let n = self.line_len(self.cursor_y);
        if self.cursor_x < n {
            self.cursor_x = self.cursor_x + 1;
        } else if self.cursor_y < self.lines.len() - 1 {
            self.cursor_y = self.cursor_y + 1;
            self.cursor_x = 0;
        }
    }

    /// Insert `c` at the cursor (`String::insert`, which needs the cursor on
    /// a character boundary) and step right by one byte.
    pub fn insert_char(&mut self, c: char)
        requires
            old(self).wf(),
            is_boundary(old(self).lines@[old(self).cursor_y as int]@, old(self).cursor_x as nat),
        ensures
            ({
                let line = old(self).lines@[old(self).cursor_y as int]@;
                let k = char_index(line, old(self).cursor_x as nat);
                final(self).text() == old(self).text().update(
                    old(self).cursor_y as int,
                    line.take(k) + seq![c] + line.skip(k),
                )
            }),
            final(self).cursor_y == old(self).cursor_y,
            final(self).cursor_x == old(self).cursor_x + 1,
            final(self).project_id == old(self).project_id,
            final(self).file_path == old(self).file_path,
            final(self).scroll_offset == old(self).scroll_offset,
            char_inserted(*old(self), *final(self), c),
    {
        let y = self.cursor_y;
        let cs = chars_of(self.lines[y].as_str());
        let k = match char_index_of_byte(cs.as_slice(), self.cursor_x) {
            Some(k) => k,
            None => {
                assert(false);
                return ;
            },
        };
        let mut out: Vec<char> = crate::text::slice_vec(cs.as_slice(), 0, k);
        out.push(c);
        let rest = crate::text::slice_vec(cs.as_slice(), k, cs.len());
        let mut j: usize = 0;
        let ghost base = out@;
        while j < rest.len()
            invariant
                j <= rest@.len(),
                out@ == base + rest@.take(j as int),
            decreases rest@.len() - j,
        {
            out.push(rest[j]);
            assert(rest@.take(j + 1) =~= rest@.take(j as int).push(rest@[j as int]));
            j = j + 1;
        }
        assert(rest@.take(rest@.len() as int) =~= rest@);
        assert(cs@.subrange(k as int, cs@.len() as int) =~= cs@.skip(k as int));
        assert(cs@.subrange(0, k as int) =~= cs@.take(k as int));
        assert(out@ =~= cs@.take(k as int) + seq![c] + cs@.skip(k as int));
        let ns = string_of(out.as_slice());
        proof {
            // the cursor fits: it is at most the line's byte length
            crate::text::lemma_byte_len_prefix(cs@, k as int);
        }
        let ghost old_lines = self.lines@;
        self.lines.set(y, ns);
        assert(self.text() =~= string_views(old_lines).update(y as int, out@));
        let _line_bytes = crate::text::str_byte_len(self.lines[y].as_str());
        proof {
            crate::text::lemma_byte_len_prefix(out@, k + 1);
            assert(out@.take(k + 1) =~= cs@.take(k as int).push(c));
            assert(out@.take(k + 1).drop_last() =~= cs@.take(k as int));
        }
        self.cursor_x = self.cursor_x + 1;
    }

    /// Delete the character before the cursor (`String::remove`, which needs
    /// that character to start on a boundary), or at the start of a line join
    /// it onto the previous one.
    pub fn backspace(&mut self)
        requires
            old(self).wf(),
            old(self).cursor_x > 0 ==> is_boundary(
                old(self).lines@[old(self).cursor_y as int]@,
                (old(self).cursor_x - 1) as nat,
            ) && old(self).cursor_x - 1 < byte_len(old(self).lines@[old(self).cursor_y as int]@),
        ensures
            old(self).cursor_x > 0 ==> ({
                let line = old(self).lines@[old(self).cursor_y as int]@;
                let k = char_index(line, (old(self).cursor_x - 1) as nat);
                &&& final(self).text() == old(self).text().update(
                    old(self).cursor_y as int,
                    line.take(k) + line.skip(k + 1),
                )
                &&& final(self).cursor_y == old(self).cursor_y
                &&& final(self).cursor_x == old(self).cursor_x - 1
            }),
            old(self).cursor_x == 0 && old(self).cursor_y > 0 ==> ({
                let y = old(self).cursor_y as int;
                let t = old(self).text();
                &&& final(self).text() == t.update(y - 1, t[y - 1] + t[y]).remove(y)
                &&& final(self).cursor_y == y - 1
                &&& final(self).cursor_x == byte_len(t[y - 1])
            }),
            old(self).cursor_x == 0 && old(self).cursor_y == 0 ==> final(self).text() == old(
                self,
            ).text() && final(self).cursor_y == 0 && final(self).cursor_x == 0,
            final(self).project_id == old(self).project_id,
            final(self).file_path == old(self).file_path,
            final(self).scroll_offset == old(self).scroll_offset,
            backspaced(*old(self), *final(self)),
    {
        let y = self.cursor_y;
        if self.cursor_x > 0 {
            let cs = chars_of(self.lines[y].as_str());
            let k = match char_index_of_byte(cs.as_slice(), self.cursor_x - 1) {
                Some(k) => k,
                None => {
                    assert(false);
                    return ;
                },
            };
            proof {
                if k >= cs@.len() {
                    assert(cs@.take(k as int) =~= cs@);
                    assert(false);
                }
            }
            let n = cs.len();
            let mut out: Vec<char> = crate::text::slice_vec(cs.as_slice(), 0, k);
            let rest = crate::text::slice_vec(cs.as_slice(), k + 1, n);
            let mut j: usize = 0;
            let ghost base = out@;
            while j < rest.len()
                invariant
                    j <= rest@.len(),
                    out@ == base + rest@.take(j as int),
                decreases rest@.len() - j,
            {
                out.push(rest[j]);
                assert(rest@.take(j + 1) =~= rest@.take(j as int).push(rest@[j as int]));
                j = j + 1;
            }
            assert(rest@.take(rest@.len() as int) =~= rest@);
            assert(out@ =~= cs@.take(k as int) + cs@.skip(k + 1));
            let ns = string_of(out.as_slice());
            let ghost old_lines = self.lines@;
            self.lines.set(y, ns);
            assert(self.text() =~= string_views(old_lines).update(y as int, out@));
            self.cursor_x = self.cursor_x - 1;
        } else if y > 0 {
            let ghost t = self.text();
            let current_line = self.lines.remove(y);
            self.cursor_y = y - 1;
            let n = self.line_len(y - 1);
            self.cursor_x = n;
            let a = chars_of(self.lines[y - 1].as_str());
            let b = chars_of(current_line.as_str());
            let mut out = a;
            let mut j: usize = 0;
            let ghost base = out@;
            while j < b.len()
                invariant
                    j <= b@.len(),
                    out@ == base + b@.take(j as int),
                decreases b@.len() - j,
            {
                out.push(b[j]);
                assert(b@.take(j + 1) =~= b@.take(j as int).push(b@[j as int]));
                j = j + 1;
            }
            assert(b@.take(b@.len() as int) =~= b@);
            let ns = string_of(out.as_slice());
            let ghost mid = self.lines@;
            self.lines.set(y - 1, ns);
            assert(self.text() =~= t.update(y - 1, t[y - 1] + t[y as int]).remove(y as int));
        }
    }

    /// Split the current line at the cursor (`String::split_off`, which needs
    /// the cursor on a character boundary); the cursor moves to the start of
    /// the new line.
    pub fn insert_newline(&mut self)
        requires
            old(self).wf(),
            is_boundary(old(self).lines@[old(self).cursor_y as int]@, old(self).cursor_x as nat),
        ensures
            ({
                let y = old(self).cursor_y as int;
                let line = old(self).lines@[y]@;
                let k = char_index(line, old(self).cursor_x as nat);
                final(self).text() == old(self).text().update(y, line.take(k)).insert(
                    y + 1,
                    line.skip(k),
                )
            }),
            final(self).cursor_y == old(self).cursor_y + 1,
            final(self).cursor_x == 0,
            final(self).project_id == old(self).project_id,
            final(self).file_path == old(self).file_path,
            final(self).scroll_offset == old(self).scroll_offset,
            newline_inserted(*old(self), *final(self)),
    {
        let y = self.cursor_y;
        let cs = chars_of(self.lines[y].as_str());
        let k = match char_index_of_byte(cs.as_slice(), self.cursor_x) {
            Some(k) => k,
            None => {
                assert(false);
                return ;
            },
        };
        let head = crate::text::slice_vec(cs.as_slice(), 0, k);
        let tail = crate::text::slice_vec(cs.as_slice(), k, cs.len());
        assert(head@ =~= cs@.take(k as int));
        assert(tail@ =~= cs@.skip(k as int));
        let ghost t = self.text();
        let nlines = self.lines.len();
        assert(y < nlines);
        let y1 = y + 1;
        let hs = string_of(head.as_slice());
        let ts = string_of(tail.as_slice());
        self.lines.set(y, hs);
        self.lines.insert(y1, ts);
        assert(self.text() =~= t.update(y as int, head@).insert(y + 1, tail@));
        self.cursor_y = y1;
        self.cursor_x = 0;
    }

    /// The buffer's text: the lines joined with `\n`.
    pub fn get_content(&self) -> (res: String)
        ensures
            res@ == joined(self.text()),
    {
        let mut out: Vec<char> = Vec::new();
        let mut i: usize = 0;
        while i < self.lines.len()
            invariant
                i <= self.lines@.len(),
                out@ == joined(self.text().take(i as int)),
            decreases self.lines@.len() - i,
        {
            let ghost before = out@;
            if i > 0 {
                out.push('\n');
            }
            let cs = chars_of(self.lines[i].as_str());
            let mut j: usize = 0;
            let ghost base = out@;
            while j < cs.len()
                invariant
                    j <= cs@.len(),
                    out@ == base + cs@.take(j as int),
                decreases cs@.len() - j,
            {
                out.push(cs[j]);
                assert(cs@.take(j + 1) =~= cs@.take(j as int).push(cs@[j as int]));
                j = j + 1;
            }
            assert(cs@.take(cs@.len() as int) =~= cs@);
            proof {
                let tk = self.text().take(i + 1);
                assert(tk.drop_last() =~= self.text().take(i as int));
                assert(tk.last() == cs@);
                if i == 0 {
                    assert(joined(Seq::<Seq<char>>::empty()) == Seq::<char>::empty());
                    assert(out@ =~= cs@);
                    assert(tk.len() == 1);
                } else {
                    assert(out@ =~= before + seq!['\n'] + cs@);
                }
            }
            i = i + 1;
        }
        assert(self.text().take(self.lines@.len() as int) =~= self.text());
        string_of(out.as_slice())
    }
}

/// What the editor asks of its caller after a key.
pub enum EnvAction {
    NoAction,
    Exit,
    Message(String),
    /// Ctrl+S: write `content` to `path`.
    Save { path: String, content: String },
}

pub struct EnvController;

impl EnvController {
    /// Esc leaves the editor, Ctrl+S asks to save, arrows move, Backspace
    /// deletes, Enter splits the line, any other character is typed.
    pub fn handle_key(key: KeyEvent, model: &mut EnvModel) -> (action: EnvAction)
        requires
            old(model).wf(),
            (key.code is Char && !(key.code == KeyCode::Char('s') && key.ctrl)) || key.code is Enter
                ==> is_boundary(old(model).lines@[old(model).cursor_y as int]@, old(model).cursor_x as nat),
            key.code is Backspace && old(model).cursor_x > 0 ==> is_boundary(
                old(model).lines@[old(model).cursor_y as int]@,
                (old(model).cursor_x - 1) as nat,
            ) && old(model).cursor_x - 1 < byte_len(old(model).lines@[old(model).cursor_y as int]@),
        ensures
            match key.code {
                KeyCode::Esc => action is Exit && *final(model) == *old(model),
                KeyCode::Char('s') if key.ctrl => action matches EnvAction::Save { path, content }
                    && path == old(model).file_path && content@ == joined(old(model).text())
                    && *final(model) == *old(model),
                KeyCode::Up => action is NoAction && up_moved(*old(model), *final(model)),
                KeyCode::Down => action is NoAction && down_moved(*old(model), *final(model)),
                KeyCode::Left => action is NoAction && left_moved(*old(model), *final(model)),
                KeyCode::Right => action is NoAction && right_moved(*old(model), *final(model)),
                KeyCode::Backspace => action is NoAction && backspaced(*old(model), *final(model)),
                KeyCode::Enter => action is NoAction && newline_inserted(*old(model), *final(model)),
                KeyCode::Char(c) => action is NoAction && char_inserted(*old(model), *final(model), c),
                _ => action is NoAction && *final(model) == *old(model),
            },
    {
        match key.code {
            KeyCode::Esc => EnvAction::Exit,
            KeyCode::Char('s') if key.ctrl => {
                let content = model.get_content();
                EnvAction::Save { path: model.file_path.clone(), content }
            },
            KeyCode::Up => {
                model.move_up();
                EnvAction::NoAction
            },
            KeyCode::Down => {
                model.move_down();
                EnvAction::NoAction
            },
            KeyCode::Left => {
                model.move_left();
                EnvAction::NoAction
            },
            KeyCode::Right => {
                model.move_right();
                EnvAction::NoAction
            },
            KeyCode::Backspace => {
                model.backspace();
                EnvAction::NoAction
            },
            KeyCode::Enter => {
                model.insert_newline();
                EnvAction::NoAction
            },
            KeyCode::Char(c) => {
                model.insert_char(c);
                EnvAction::NoAction
            },
            _ => EnvAction::NoAction,
        }
    }
}

} // verus!
