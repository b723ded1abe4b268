//! The editing core: a line-oriented text buffer with a cursor and a
//! scrollable viewport.
//!
//! The buffer owns an ordered, never-empty sequence of lines (each free of
//! `'\n'`), a cursor addressing a column within or one past the end of a line,
//! and a viewport rectangle that is translated after every operation so the
//! cursor stays visible.

use vstd::prelude::*;

use crate::terminal_ui::Rectangle;
use crate::text::{
    join_lines_content,
    joined_text,
    lemma_split_text_no_newline,
    no_newline,
    split_content,
    split_text,
};
use crate::Screen;

verus! {

/// The cursor position: column `x` within (or one past the end of) row `y`.
#[derive(Clone, Copy, PartialEq, Eq, Structural, Debug)]
pub struct Cursor {
    pub x: usize,
    pub y: usize,
}

/// The closed set of cursor movement requests.
#[derive(Clone, Copy, PartialEq, Eq, Structural, Debug)]
pub enum CursorMovement {
    Up,
    Down,
    Left,
    Right,
    LineStart,
    LineEnd,
    TextStart,
    FirstLine,
    LastLine,
    ToLine(usize),
}

/// Failures surfaced to the caller of a buffer operation.
#[derive(Clone, Copy, PartialEq, Eq, Structural, Debug)]
pub enum EditorError {
    /// A file could not be opened, read or written.
    IoError,
    /// A bare save was requested on a buffer with no associated path.
    NoAssociatedPath,
    /// A malformed numeric argument was given to a command.
    ParseError,
}

/// A mutable line-oriented text buffer with cursor, viewport and an optional
/// associated file path.
pub struct TextBuffer {
    lines: Vec<Vec<char>>,
    cursor: Cursor,
    view: Rectangle,
    path: Option<String>,
}

/// The mathematical model of a [`TextBuffer`].
pub struct BufferView {
    pub lines: Seq<Seq<char>>,
    pub cursor: Cursor,
    pub view: Rectangle,
    pub path: Option<Seq<char>>,
}

impl View for TextBuffer {
    type V = BufferView;

    closed spec fn view(&self) -> BufferView {
        BufferView {
            lines: self.lines.deep_view(),
            cursor: self.cursor,
            view: self.view,
            path: match self.path {
                Some(p) => Some(p@),
                None => None,
            },
        }
    }
}

/// Whitespace for the purpose of finding where a line's text starts.
pub open spec fn is_blank(c: char) -> bool {
    c == ' ' || c == '\t'
}

pub open spec fn all_blank(line: Seq<char>) -> bool {
    forall|j: int| 0 <= j < line.len() ==> is_blank(line[j])
}

/// The column of the first non-whitespace character of `line`, or 0 when the
/// line is empty or all whitespace.
pub open spec fn text_start_col(line: Seq<char>) -> int
    decreases line.len(),
{
    if all_blank(line) {
        0
    } else if !is_blank(line[0]) {
        0
    } else {
        1 + text_start_col(line.drop_first())
    }
}

/// Where one viewport axis scrolls to so that `coord` becomes visible: back to
/// `coord` when it lies before the window, forward by exactly the overshoot
/// when it lies past the window's far edge, and nowhere otherwise.
pub open spec fn adjusted_offset(offset: int, extent: int, coord: int) -> int {
    let far = offset + (if extent > 0 {
        extent - 1
    } else {
        0
    });
    if coord < offset {
        coord
    } else if coord > far {
        offset + (coord - far)
    } else {
        offset
    }
}

/// The viewport after the minimal translation that reveals `cursor` on both
/// axes; width and height never change.
pub open spec fn adjusted_view(view: Rectangle, cursor: Cursor) -> Rectangle {
    Rectangle {
        x: adjusted_offset(view.x as int, view.width as int, cursor.x as int) as usize,
        y: adjusted_offset(view.y as int, view.height as int, cursor.y as int) as usize,
        width: view.width,
        height: view.height,
    }
}

/// After adjustment the viewport contains the cursor on both axes, whatever
/// the viewport and cursor were before.
pub proof fn lemma_adjusted_view_contains_cursor(view: Rectangle, cursor: Cursor)
    ensures
        adjusted_view(view, cursor).spec_left() <= cursor.x,
        cursor.x <= adjusted_view(view, cursor).spec_right(),
        adjusted_view(view, cursor).spec_top() <= cursor.y,
        cursor.y <= adjusted_view(view, cursor).spec_bottom(),
{
}

/// The scrolling policy is minimal-motion: a viewport that already shows the
/// cursor does not move at all.
pub proof fn lemma_adjusted_view_no_motion(view: Rectangle, cursor: Cursor)
    requires
        view.spec_left() <= cursor.x <= view.spec_right(),
        view.spec_top() <= cursor.y <= view.spec_bottom(),
    ensures
        adjusted_view(view, cursor) == view,
{
}

/// The cursor position after one movement request, as a `(column, row)` pair.
/// Movement is a pure function of the current cursor and the line lengths.
pub open spec fn moved_cursor(
    lines: Seq<Seq<char>>,
    x: int,
    y: int,
    movement: CursorMovement,
) -> (int, int) {
    match movement {
        CursorMovement::Up => {
            let ny = if y > 0 {
                y - 1
            } else {
                0
            };
            (vstd::math::min(x, lines[ny].len() as int), ny)
        },
        CursorMovement::Down => {
            let ny = if y + 1 < lines.len() {
                y + 1
            } else {
                y
            };
            (vstd::math::min(x, lines[ny].len() as int), ny)
        },
        CursorMovement::Left => {
            if x > 0 {
                (x - 1, y)
            } else if y > 0 {
                (lines[y - 1].len() as int, y - 1)
            } else {
                (0, 0)
            }
        },
        CursorMovement::Right => {
            if x < lines[y].len() {
                (x + 1, y)
            } else if y + 1 < lines.len() {
                (0, y + 1)
            } else {
                (x, y)
            }
        },
        CursorMovement::LineStart => (0, y),
        CursorMovement::LineEnd => (lines[y].len() as int, y),
        CursorMovement::TextStart => (text_start_col(lines[y]), y),
        CursorMovement::FirstLine => (0, 0),
        CursorMovement::LastLine => (0, lines.len() - 1),
        CursorMovement::ToLine(n) => (0, vstd::math::min(n as int, lines.len() - 1)),
    }
}

impl TextBuffer {
    /// The buffer's invariant, re-established by every public operation:
    /// there is always at least one line; no line has an embedded newline;
    /// the cursor addresses an existing row at a column no further than one
    /// past that row's last character; and the viewport contains the cursor
    /// on both axes.
    pub open spec fn wf(self) -> bool {
        &&& self@.lines.len() >= 1
        &&& forall|i: int| 0 <= i < self@.lines.len() ==> no_newline(#[trigger] self@.lines[i])
        &&& self@.cursor.y < self@.lines.len()
        &&& self@.cursor.x <= self@.lines[self@.cursor.y as int].len()
        &&& self@.view.in_bounds()
        &&& self@.view.spec_left() <= self@.cursor.x <= self@.view.spec_right()
        &&& self@.view.spec_top() <= self@.cursor.y <= self@.view.spec_bottom()
    }

    /// A scratch buffer: one empty line, the cursor at the origin, a viewport
    /// of the given size at the origin, and no associated path.
    pub fn create_empty(width: usize, height: usize) -> (buffer: TextBuffer)
        ensures
            buffer.wf(),
            buffer@.lines =~= seq![Seq::<char>::empty()],
            buffer@.cursor == (Cursor { x: 0, y: 0 }),
            buffer@.view == (Rectangle { x: 0, y: 0, width, height }),
            buffer@.path is None,
    {
        let mut lines: Vec<Vec<char>> = Vec::new();
        lines.push(Vec::new());
        let buffer = TextBuffer {
            lines,
            cursor: Cursor { x: 0, y: 0 },
            view: Rectangle { x: 0, y: 0, width, height },
            path: None,
        };
        proof {
            assert(buffer@.lines =~~= seq![Seq::<char>::empty()]);
        }
        buffer
    }

    /// A buffer holding `content` split into lines, with the cursor at the
    /// origin and no associated path; the caller records the path separately
    /// once the content has actually been read from a file.
    pub fn from_content(content: &Vec<char>, width: usize, height: usize) -> (buffer: TextBuffer)
        ensures
            buffer.wf(),
            buffer@.lines == split_text(content@),
            buffer@.cursor == (Cursor { x: 0, y: 0 }),
            buffer@.view == (Rectangle { x: 0, y: 0, width, height }),
            buffer@.path is None,
    {
        proof {
            lemma_split_text_no_newline(content@);
        }
        let lines = split_content(content);
        TextBuffer {
            lines,
            cursor: Cursor { x: 0, y: 0 },
            view: Rectangle { x: 0, y: 0, width, height },
            path: None,
        }
    }

    /// Translates the viewport just enough to reveal the cursor on both axes;
    /// the minimal-motion scrolling policy.
    fn clamp_viewport(&mut self)
        requires
            old(self)@.view.in_bounds(),
        ensures
            final(self)@.lines == old(self)@.lines,
            final(self)@.cursor == old(self)@.cursor,
            final(self)@.path == old(self)@.path,
            final(self)@.view == adjusted_view(old(self)@.view, old(self)@.cursor),
            final(self)@.view.in_bounds(),
            final(self)@.view.spec_left() <= final(self)@.cursor.x,
            final(self)@.cursor.x <= final(self)@.view.spec_right(),
            final(self)@.view.spec_top() <= final(self)@.cursor.y,
            final(self)@.cursor.y <= final(self)@.view.spec_bottom(),
    {
        let cx = self.cursor.x;
        if cx < self.view.x {
            self.view.x = cx;
        } else {
            let far = self.view.right();
            if cx > far {
                self.view.x = self.view.x + (cx - far);
            }
        }
        let cy = self.cursor.y;
        if cy < self.view.y {
            self.view.y = cy;
        } else {
            let far = self.view.bottom();
            if cy > far {
                self.view.y = self.view.y + (cy - far);
            }
        }
    }

    /// Applies one movement request: the cursor moves as [`moved_cursor`]
    /// says, the lines are untouched, and the viewport is translated to keep
    /// the cursor visible.
    pub fn handle_movement(&mut self, movement: CursorMovement)
        requires
            old(self).wf(),
        ensures
            final(self).wf(),
            final(self)@.lines == old(self)@.lines,
            final(self)@.path == old(self)@.path,
            ({
                let (nx, ny) = moved_cursor(
                    old(self)@.lines,
                    old(self)@.cursor.x as int,
                    old(self)@.cursor.y as int,
                    movement,
                );
                final(self)@.cursor.x == nx && final(self)@.cursor.y == ny
            }),
            final(self)@.view == adjusted_view(old(self)@.view, final(self)@.cursor),
    {
        let x = self.cursor.x;
        let y = self.cursor.y;
        let count = self.lines.len();
        match movement {
            CursorMovement::Up => {
                let ny = if y > 0 {
                    y - 1
                } else {
                    0
                };
                let len = self.lines[ny].len();
                self.cursor = Cursor {
                    x: if x < len {
                        x
                    } else {
                        len
                    },
                    y: ny,
                };
            },
            CursorMovement::Down => {
                let ny = if y + 1 < count {
                    y + 1
                } else {
                    y
                };
                let len = self.lines[ny].len();
                self.cursor = Cursor {
                    x: if x < len {
                        x
                    } else {
                        len
                    },
                    y: ny,
                };
            },
            CursorMovement::Left => {
                if x > 0 {
                    self.cursor = Cursor { x: x - 1, y };
                } else if y > 0 {
                    let len = self.lines[y - 1].len();
                    self.cursor = Cursor { x: len, y: y - 1 };
                }
            },
            CursorMovement::Right => {
                let len = self.lines[y].len();
                if x < len {
                    self.cursor = Cursor { x: x + 1, y };
                } else if y + 1 < count {
                    self.cursor = Cursor { x: 0, y: y + 1 };
                }
            },
            CursorMovement::LineStart => {
                self.cursor = Cursor { x: 0, y };
            },
            CursorMovement::LineEnd => {
                let len = self.lines[y].len();
                self.cursor = Cursor { x: len, y };
            },
            CursorMovement::TextStart => {
                proof {
                    assert(self.lines@[y as int].deep_view() =~= self.lines@[y as int]@);
                }
                let col = text_start_column(&self.lines[y]);
                self.cursor = Cursor { x: col, y };
            },
            CursorMovement::FirstLine => {
                self.cursor = Cursor { x: 0, y: 0 };
            },
            CursorMovement::LastLine => {
                let last = count - 1;
                self.cursor = Cursor { x: 0, y: last };
            },
            CursorMovement::ToLine(n) => {
                let last = count - 1;
                let ny = if n < last {
                    n
                } else {
                    last
                };
                self.cursor = Cursor { x: 0, y: ny };
            },
        }
        self.clamp_viewport();
    }
}

/// All of `lines` concatenated, in order, with nothing between them.
pub open spec fn concat_lines(lines: Seq<Seq<char>>) -> Seq<char>
    decreases lines.len(),
{
    if lines.len() == 0 {
        Seq::<char>::empty()
    } else {
        lines[0] + concat_lines(lines.drop_first())
    }
}

proof fn lemma_concat_lines_push(lines: Seq<Seq<char>>, line: Seq<char>)
    ensures
        concat_lines(lines.push(line)) == concat_lines(lines) + line,
    decreases lines.len(),
{
    let whole = lines.push(line);
    if lines.len() == 0 {
        assert(whole[0] == line);
        assert(concat_lines(whole) == whole[0] + concat_lines(whole.drop_first()));
        assert(whole.drop_first().len() == 0);
        assert(concat_lines(whole.drop_first()) == Seq::<char>::empty());
        assert(concat_lines(lines) == Seq::<char>::empty());
        assert(concat_lines(whole) =~= concat_lines(lines) + line);
    } else {
        lemma_concat_lines_push(lines.drop_first(), line);
        assert(whole.drop_first() =~~= lines.drop_first().push(line));
        assert(whole[0] == lines[0]);
        assert(concat_lines(whole) == whole[0] + concat_lines(whole.drop_first()));
        assert(concat_lines(whole.drop_first()) == concat_lines(lines.drop_first()) + line);
        assert(concat_lines(lines) == lines[0] + concat_lines(lines.drop_first()));
        assert(concat_lines(whole) =~= concat_lines(lines) + line);
    }
}

impl TextBuffer {
    /// Inserts `c` at the cursor's column on the cursor's row, then advances
    /// the cursor one column right and reveals it.
    pub fn insert_char(&mut self, c: char)
        requires
            old(self).wf(),
            c != '\n',
        ensures
            final(self).wf(),
            final(self)@.lines == old(self)@.lines.update(
                old(self)@.cursor.y as int,
                old(self)@.lines[old(self)@.cursor.y as int].insert(old(self)@.cursor.x as int, c),
            ),
            final(self)@.cursor.x == old(self)@.cursor.x + 1,
            final(self)@.cursor.y == old(self)@.cursor.y,
            final(self)@.path == old(self)@.path,
            final(self)@.view == adjusted_view(old(self)@.view, final(self)@.cursor),
    {
        let x = self.cursor.x;
        let y = self.cursor.y;
        let line = &mut self.lines[y];
        line.insert(x, c);
        let new_len = line.len();
        proof {
            assert(self@.lines =~~= old(self)@.lines.update(
                y as int,
                old(self)@.lines[y as int].insert(x as int, c),
            ));
        }
        self.cursor = Cursor { x: x + 1, y };
        self.clamp_viewport();
    }

    /// Inserts the whole of `string` at the cursor and advances the cursor by
    /// its length, as one undivided insert.
    pub fn insert_string(&mut self, string: &str)
        requires
            old(self).wf(),
            no_newline(string@),
        ensures
            final(self).wf(),
            ({
                let x = old(self)@.cursor.x as int;
                let y = old(self)@.cursor.y as int;
                let line = old(self)@.lines[y];
                final(self)@.lines == old(self)@.lines.update(
                    y,
                    line.subrange(0, x) + string@ + line.subrange(x, line.len() as int),
                )
            }),
            final(self)@.cursor.x == old(self)@.cursor.x + string@.len(),
            final(self)@.cursor.y == old(self)@.cursor.y,
            final(self)@.path == old(self)@.path,
            final(self)@.view == adjusted_view(old(self)@.view, final(self)@.cursor),
    {
        #![verifier::loop_isolation(false)]
        let x = self.cursor.x;
        let y = self.cursor.y;
        let n = string.unicode_len();
        let line = &mut self.lines[y];
        let ghost pre = line@.subrange(0, x as int);
        let ghost suf = line@.subrange(x as int, line@.len() as int);
        proof {
            assert(line@ =~= pre + string@.subrange(0, 0) + suf);
        }
        let mut i: usize = 0;
        while i < n
            invariant
                0 <= i <= n,
                n == string@.len(),
                x == pre.len(),
                line@ =~= pre + string@.subrange(0, i as int) + suf,
            decreases n - i,
        {
            let l = line.len();
            let ch = string.get_char(i);
            line.insert(x + i, ch);
            proof {
                assert(line@ =~= pre + string@.subrange(0, i + 1) + suf);
            }
            i = i + 1;
        }
        let new_len = line.len();
        proof {
            assert(string@.subrange(0, n as int) =~= string@);
            assert(self@.lines =~~= old(self)@.lines.update(
                y as int,
                old(self)@.lines[y as int].subrange(0, x as int) + string@ + old(
                    self,
                )@.lines[y as int].subrange(x as int, old(self)@.lines[y as int].len() as int),
            ));
        }
        self.cursor = Cursor { x: x + n, y };
        self.clamp_viewport();
    }

    /// Concatenates the closed range of rows `[first, last]` into a single
    /// row, then clamps the cursor onto a valid position and reveals it.
    pub fn join_lines(&mut self, first: usize, last: usize)
        requires
            old(self).wf(),
            first <= last < old(self)@.lines.len(),
        ensures
            final(self).wf(),
            final(self)@.lines == old(self)@.lines.subrange(0, first as int) + seq![
                concat_lines(old(self)@.lines.subrange(first as int, last + 1)),
            ] + old(self)@.lines.subrange(last + 1, old(self)@.lines.len() as int),
            final(self)@.cursor.y == vstd::math::min(
                old(self)@.cursor.y as int,
                final(self)@.lines.len() - 1,
            ),
            final(self)@.cursor.x == vstd::math::min(
                old(self)@.cursor.x as int,
                final(self)@.lines[final(self)@.cursor.y as int].len() as int,
            ),
            final(self)@.path == old(self)@.path,
            final(self)@.view == adjusted_view(old(self)@.view, final(self)@.cursor),
    {
        #![verifier::loop_isolation(false)]
        let count = self.lines.len();
        let ghost old_lines = old(self)@.lines;
        let mut merged: Vec<char> = Vec::new();
        proof {
            assert(old_lines.subrange(first as int, first as int)
                =~~= Seq::<Seq<char>>::empty());
        }
        let mut k: usize = first;
        while k <= last
            invariant
                first <= k <= last + 1,
                merged@ =~= concat_lines(old_lines.subrange(first as int, k as int)),
                no_newline(merged@),
            decreases last + 1 - k,
        {
            let ghost before = merged@;
            merged.extend_from_slice(self.lines[k].as_slice());
            proof {
                assert(self.lines@[k as int].deep_view() =~= self.lines@[k as int]@);
                assert(merged@ =~= before + old_lines[k as int]);
                assert(no_newline(old_lines[k as int]));
                assert forall|t: int| 0 <= t < merged@.len() implies merged@[t] != '\n' by {
                    if t >= before.len() {
                        assert(merged@[t] == old_lines[k as int][t - before.len()]);
                    }
                }
                lemma_concat_lines_push(old_lines.subrange(first as int, k as int),
                    old_lines[k as int]);
                assert(old_lines.subrange(first as int, k + 1) =~~= old_lines.subrange(
                    first as int,
                    k as int,
                ).push(old_lines[k as int]));
            }
            k = k + 1;
        }
        let to_remove = last - first + 1;
        let mut j: usize = 0;
        while j < to_remove
            invariant
                0 <= j <= to_remove,
                self.lines@ =~= old(self).lines@.subrange(0, first as int) + old(
                    self,
                ).lines@.subrange(first + j, old(self).lines@.len() as int),
                self.cursor == old(self).cursor,
                self.view == old(self).view,
                self.path == old(self).path,
            decreases to_remove - j,
        {
            self.lines.remove(first);
            j = j + 1;
        }
        self.lines.insert(first, merged);
        proof {
            assert(self@.lines =~~= old_lines.subrange(0, first as int) + seq![
                concat_lines(old_lines.subrange(first as int, last + 1)),
            ] + old_lines.subrange(last + 1, old_lines.len() as int));
            assert forall|i: int|
                0 <= i < self@.lines.len() implies no_newline(#[trigger] self@.lines[i]) by {
                if i < first {
                    assert(self@.lines[i] == old_lines[i]);
                    assert(no_newline(old_lines[i]));
                } else if i == first {
                    assert(self@.lines[i] == merged@);
                } else {
                    assert(self@.lines[i] == old_lines[last + 1 + (i - first - 1)]);
                    assert(no_newline(old_lines[last + 1 + (i - first - 1)]));
                }
            }
        }
        let line_count = self.lines.len();
        if self.cursor.y >= line_count {
            self.cursor = Cursor { x: self.cursor.x, y: line_count - 1 };
        }
        let row_len = self.lines[self.cursor.y].len();
        if self.cursor.x > row_len {
            self.cursor = Cursor { x: row_len, y: self.cursor.y };
        }
        self.clamp_viewport();
    }

    /// Forward delete: removes the character at the cursor, or, at the end of
    /// a line that is not the last, merges the line with the next one; the
    /// cursor and the viewport do not move.
    pub fn remove_char(&mut self)
        requires
            old(self).wf(),
        ensures
            final(self).wf(),
            ({
                let x = old(self)@.cursor.x as int;
                let y = old(self)@.cursor.y as int;
                let lines = old(self)@.lines;
                &&& (x < lines[y].len() ==> final(self)@.lines == lines.update(
                    y,
                    lines[y].remove(x),
                ))
                &&& (x == lines[y].len() && y + 1 < lines.len() ==> final(self)@.lines
                    == lines.subrange(0, y) + seq![lines[y] + lines[y + 1]] + lines.subrange(
                    y + 2,
                    lines.len() as int,
                ))
                &&& (x == lines[y].len() && y + 1 == lines.len() ==> final(self)@.lines == lines)
            }),
            final(self)@.cursor == old(self)@.cursor,
            final(self)@.path == old(self)@.path,
            final(self)@.view == old(self)@.view,
    {
        let x = self.cursor.x;
        let y = self.cursor.y;
        let count = self.lines.len();
        let len = self.lines[y].len();
        if x < len {
            let line = &mut self.lines[y];
            line.remove(x);
            proof {
                assert(self@.lines =~~= old(self)@.lines.update(
                    y as int,
                    old(self)@.lines[y as int].remove(x as int),
                ));
            }
            self.clamp_viewport();
        } else if y + 1 < count {
            self.join_lines(y, y + 1);
            proof {
                let lines = old(self)@.lines;
                let range = lines.subrange(y as int, y + 2);
                let single = range.drop_first();
                assert(single =~~= seq![lines[y + 1]]);
                assert(single.drop_first().len() == 0);
                assert(concat_lines(single.drop_first()) == Seq::<char>::empty());
                assert(concat_lines(single) == single[0] + concat_lines(single.drop_first()));
                assert(concat_lines(single) =~= lines[y + 1]);
                assert(concat_lines(range) == range[0] + concat_lines(range.drop_first()));
                assert(concat_lines(range) =~= lines[y as int] + lines[y + 1]);
            }
        }
    }

    /// Splits the current line at the cursor: text before the cursor stays on
    /// the row, text from the cursor on becomes a new row below, and the
    /// cursor moves to that new row's first column.
    pub fn insert_line(&mut self)
        requires
            old(self).wf(),
        ensures
            final(self).wf(),
            ({
                let x = old(self)@.cursor.x as int;
                let y = old(self)@.cursor.y as int;
                let line = old(self)@.lines[y];
                final(self)@.lines == old(self)@.lines.update(y, line.subrange(0, x)).insert(
                    y + 1,
                    line.subrange(x, line.len() as int),
                )
            }),
            final(self)@.cursor.x == 0,
            final(self)@.cursor.y == old(self)@.cursor.y + 1,
            final(self)@.path == old(self)@.path,
            final(self)@.view == adjusted_view(old(self)@.view, final(self)@.cursor),
    {
        let x = self.cursor.x;
        let y = self.cursor.y;
        let count = self.lines.len();
        let line = &mut self.lines[y];
        let tail = line.split_off(x);
        self.lines.insert(y + 1, tail);
        proof {
            assert(self@.lines =~~= old(self)@.lines.update(
                y as int,
                old(self)@.lines[y as int].subrange(0, x as int),
            ).insert(y + 1, old(self)@.lines[y as int].subrange(
                x as int,
                old(self)@.lines[y as int].len() as int,
            )));
        }
        self.cursor = Cursor { x: 0, y: y + 1 };
        self.clamp_viewport();
    }

    /// Deletes the whole current row. Deleting the last remaining line leaves
    /// a fresh empty line instead; deleting the bottom row moves the cursor up
    /// one row; the cursor column resets to 0.
    pub fn remove_line(&mut self)
        requires
            old(self).wf(),
        ensures
            final(self).wf(),
            final(self)@.lines == (if old(self)@.lines.len() == 1 {
                seq![Seq::<char>::empty()]
            } else {
                old(self)@.lines.remove(old(self)@.cursor.y as int)
            }),
            final(self)@.lines.len() >= 1,
            final(self)@.cursor.y == vstd::math::min(
                old(self)@.cursor.y as int,
                final(self)@.lines.len() - 1,
            ),
            final(self)@.cursor.x == 0,
            final(self)@.path == old(self)@.path,
            final(self)@.view == adjusted_view(old(self)@.view, final(self)@.cursor),
    {
        let y = self.cursor.y;
        self.lines.remove(y);
        if self.lines.len() == 0 {
            self.lines.push(Vec::new());
            proof {
                assert(self@.lines =~~= seq![Seq::<char>::empty()]);
            }
        } else {
            proof {
                assert(self@.lines =~~= old(self)@.lines.remove(y as int));
            }
        }
        let line_count = self.lines.len();
        let ny = if y >= line_count {
            line_count - 1
        } else {
            y
        };
        self.cursor = Cursor { x: 0, y: ny };
        self.clamp_viewport();
    }
}

/// One line of `lines` as the viewport row `row` shows it: the characters in
/// the viewport's column range, or an empty row below the last line.
pub open spec fn crop_line(line: Seq<char>, left: int, width: int) -> Seq<char> {
    if left >= line.len() {
        Seq::<char>::empty()
    } else {
        line.subrange(left, vstd::math::min(line.len() as int, left + width))
    }
}

/// The renderable window: exactly `view.height` rows, each the matching line
/// cropped to the viewport's column range, with empty rows as padding past the
/// end of the buffer.
pub open spec fn cropped_lines(lines: Seq<Seq<char>>, view: Rectangle) -> Seq<Seq<char>> {
    Seq::new(
        view.height as nat,
        |i: int|
            if view.y + i < lines.len() {
                crop_line(lines[view.y + i], view.x as int, view.width as int)
            } else {
                Seq::<char>::empty()
            },
    )
}

impl TextBuffer {
    /// The read-only snapshot handed to the renderer: the lines inside the
    /// viewport, cropped to its column range and padded with empty rows to
    /// exactly its height, plus the cursor in viewport-relative coordinates.
    pub fn display(&self) -> (screen: Screen)
        requires
            self.wf(),
        ensures
            screen.width == self@.view.width,
            screen.height == self@.view.height,
            screen.lines.deep_view() == cropped_lines(self@.lines, self@.view),
            screen.cursor.x == self@.cursor.x - self@.view.x,
            screen.cursor.y == self@.cursor.y - self@.view.y,
    {
        #![verifier::loop_isolation(false)]
        let width = self.view.width;
        let height = self.view.height;
        let line_count = self.lines.len();
        let mut rows: Vec<Vec<char>> = Vec::new();
        let mut i: usize = 0;
        while i < height
            invariant
                0 <= i <= height,
                rows@.len() == i,
                forall|k: int|
                    0 <= k < i ==> rows.deep_view()[k] =~= cropped_lines(self@.lines, self@.view)[k],
            decreases height - i,
        {
            let row_index = self.view.y + i;
            let mut row: Vec<char> = Vec::new();
            if row_index < line_count {
                let line = &self.lines[row_index];
                let len = line.len();
                if self.view.x < len {
                    let avail = len - self.view.x;
                    let take = if avail < width {
                        avail
                    } else {
                        width
                    };
                    let mut j: usize = 0;
                    while j < take
                        invariant
                            0 <= j <= take,
                            take <= len - self.view.x,
                            row@.len() == j,
                            forall|t: int| 0 <= t < j ==> row@[t] == line@[self@.view.x + t],
                        decreases take - j,
                    {
                        row.push(line[self.view.x + j]);
                        j = j + 1;
                    }
                }
                proof {
                    assert(self.lines@[row_index as int].deep_view() =~= self.lines@[row_index
                        as int]@);
                    assert(row@ =~= crop_line(
                        self@.lines[row_index as int],
                        self@.view.x as int,
                        self@.view.width as int,
                    ));
                }
            }
            proof {
                assert(row@ =~= cropped_lines(self@.lines, self@.view)[i as int]);
            }
            let ghost rows_before = rows.deep_view();
            rows.push(row);
            proof {
                assert(rows.deep_view() =~~= rows_before.push(row@));
            }
            i = i + 1;
        }
        proof {
            assert(rows.deep_view() =~~= cropped_lines(self@.lines, self@.view));
        }
        Screen {
            width,
            height,
            lines: rows,
            cursor: Cursor { x: self.cursor.x - self.view.x, y: self.cursor.y - self.view.y },
        }
    }

    /// The buffer's whole contents as raw text: the lines joined with `'\n'`
    /// and no trailing newline.
    pub fn content(&self) -> (content: Vec<char>)
        requires
            self.wf(),
        ensures
            content@ == joined_text(self@.lines),
    {
        join_lines_content(&self.lines)
    }

    /// The path a bare save must write to: the associated path when one is
    /// set, and `NoAssociatedPath` exactly when none is.
    pub fn save_path(&self) -> (r: Result<String, EditorError>)
        ensures
            match r {
                Ok(p) => self@.path == Some(p@),
                Err(e) => e == EditorError::NoAssociatedPath && self@.path is None,
            },
    {
        match &self.path {
            Some(p) => Ok(p.clone()),
            None => Err(EditorError::NoAssociatedPath),
        }
    }

    /// Records `path` as the buffer's associated file path, leaving the rest
    /// of the buffer untouched; called once content has been read from or
    /// written to that path.
    pub fn set_path(&mut self, path: String)
        ensures
            final(self)@.path == Some(path@),
            final(self)@.lines == old(self)@.lines,
            final(self)@.cursor == old(self)@.cursor,
            final(self)@.view == old(self)@.view,
    {
        self.path = Some(path);
    }

    /// Whether the buffer has an associated file path.
    pub fn has_path(&self) -> (b: bool)
        ensures
            b == (self@.path is Some),
    {
        match &self.path {
            Some(_) => true,
            None => false,
        }
    }

    pub fn line_count(&self) -> (n: usize)
        ensures
            n == self@.lines.len(),
    {
        self.lines.len()
    }

    pub fn cursor(&self) -> (c: Cursor)
        ensures
            c == self@.cursor,
    {
        self.cursor
    }

    pub fn viewport(&self) -> (v: Rectangle)
        ensures
            v == self@.view,
    {
        self.view
    }

    pub fn line(&self, index: usize) -> (line: &Vec<char>)
        requires
            index < self@.lines.len(),
        ensures
            line.deep_view() == self@.lines[index as int],
    {
        &self.lines[index]
    }
}

/// Saving a buffer and loading what was written reproduces its line store
/// exactly: [`TextBuffer::content`] joins the lines, and
/// [`TextBuffer::from_content`] splits them back into the same sequence.
pub proof fn lemma_save_load_round_trip(buffer: TextBuffer)
    requires
        buffer.wf(),
    ensures
        split_text(joined_text(buffer@.lines)) == buffer@.lines,
{
    crate::text::lemma_split_join_text(buffer@.lines);
}

/// From a position that is not at a line boundary, `Left` then `Right`
/// returns the cursor to its original coordinates.
pub proof fn lemma_left_then_right(lines: Seq<Seq<char>>, x: int, y: int)
    requires
        0 <= y < lines.len(),
        0 < x <= lines[y].len(),
    ensures
        ({
            let (mx, my) = moved_cursor(lines, x, y, CursorMovement::Left);
            moved_cursor(lines, mx, my, CursorMovement::Right) == (x, y)
        }),
{
}

/// The converse at line joins: `Right` across a line's end then `Left`
/// returns the cursor to the end of that line.
pub proof fn lemma_right_then_left_at_join(lines: Seq<Seq<char>>, x: int, y: int)
    requires
        0 <= y,
        y + 1 < lines.len(),
        x == lines[y].len(),
    ensures
        ({
            let (mx, my) = moved_cursor(lines, x, y, CursorMovement::Right);
            moved_cursor(lines, mx, my, CursorMovement::Left) == (x, y)
        }),
{
}

/// The column where `line`'s text starts: its first non-whitespace character,
/// or 0 when the line is empty or all whitespace.
pub fn text_start_column(line: &Vec<char>) -> (col: usize)
    ensures
        col == text_start_col(line@),
        col <= line@.len(),
{
    let mut i: usize = 0;
    while i < line.len()
        invariant
            0 <= i <= line@.len(),
            forall|j: int| 0 <= j < i ==> is_blank(line@[j]),
        decreases line@.len() - i,
    {
        let c = line[i];
        if !(c == ' ' || c == '\t') {
            proof {
                lemma_text_start_col_at(line@, i as int);
            }
            return i;
        }
        i = i + 1;
    }
    proof {
        assert(all_blank(line@));
    }
    0
}

/// `text_start_col` finds exactly the first non-whitespace column.
proof fn lemma_text_start_col_at(line: Seq<char>, r: int)
    requires
        0 <= r < line.len(),
        !is_blank(line[r]),
        forall|j: int| 0 <= j < r ==> is_blank(line[j]),
    ensures
        text_start_col(line) == r,
    decreases r,
{
    assert(!all_blank(line));
    if r == 0 {
    } else {
        assert(is_blank(line[0]));
        let rest = line.drop_first();
        assert(rest[r - 1] == line[r]);
        assert(forall|j: int| 0 <= j < r - 1 ==> rest[j] == line[j + 1] && is_blank(line[j + 1]));
        lemma_text_start_col_at(rest, r - 1);
    }
}

} // verus!
