//! Core of a line-oriented terminal text editor: a text buffer with a cursor
//! and a scrollable viewport, plus the cell surface it is painted onto.

use vstd::prelude::*;

pub mod buffer;
pub mod terminal_ui;
pub mod text;

use crate::buffer::Cursor;
use crate::terminal_ui::{Cell, Position, Rectangle, Style, Surface};

verus! {

/// A snapshot of the renderable window: exactly `height` rows of text, each
/// cropped to the viewport's column range, with the cursor translated into
/// viewport-relative coordinates.
pub struct Screen {
    pub width: usize,
    pub height: usize,
    pub lines: Vec<Vec<char>>,
    pub cursor: Cursor,
}

/// The glyph a screen with the given lines shows at `(row, col)`: the line's
/// character there, or a blank past the end of a line or below the last line.
pub open spec fn screen_glyph(lines: Seq<Seq<char>>, row: int, col: int) -> char {
    if 0 <= row < lines.len() && 0 <= col < lines[row].len() {
        lines[row][col]
    } else {
        ' '
    }
}

/// Cells of distinct rows occupy disjoint ranges of a row-major grid.
proof fn lemma_row_major_separate(w: int, r: int, c: int, row: int)
    requires
        0 <= c < w,
        r != row,
    ensures
        r < row ==> r * w + c < row * w,
        r > row ==> r * w + c >= row * w + w,
{
    if r < row {
        assert(r * w + c < row * w) by (nonlinear_arith)
            requires
                0 <= c < w,
                r < row,
        ;
    } else {
        assert(r * w + c >= row * w + w) by (nonlinear_arith)
            requires
                c >= 0,
                r > row,
                w >= 0,
        ;
    }
}

impl Screen {
    /// Paints the screen onto a fresh full-screen surface in the default
    /// style: each row's text laid out left to right, blank cells everywhere
    /// else.
    pub fn display(&self) -> (surface: Surface)
        requires
            self.width * self.height <= usize::MAX,
        ensures
            surface.wf(),
            surface@.rect == (Rectangle { x: 0, y: 0, width: self.width, height: self.height }),
            forall|row: int, col: int|
                0 <= row < self.height && 0 <= col < self.width ==> surface@.cells[row * self.width
                    + col] == (Cell {
                    glyph: screen_glyph(self.lines.deep_view(), row, col),
                    style: Style::default_spec(),
                }),
    {
        #![verifier::loop_isolation(false)]
        let rect = Rectangle { x: 0, y: 0, width: self.width, height: self.height };
        let mut surface = Surface::empty(rect);
        let style = Style::default();
        let line_count = self.lines.len();
        let count = if line_count < self.height {
            line_count
        } else {
            self.height
        };
        let mut row: usize = 0;
        while row < count
            invariant
                0 <= row <= count,
                surface.wf(),
                surface@.rect == rect,
                forall|r: int, c: int|
                    0 <= r < row && 0 <= c < self.width ==> surface@.cells[r * self.width + c]
                        == (Cell {
                        glyph: screen_glyph(self.lines.deep_view(), r, c),
                        style: Style::default_spec(),
                    }),
                forall|j: int|
                    row * self.width <= j < surface@.cells.len() ==> surface@.cells[j]
                        == Cell::empty_spec(),
            decreases count - row,
        {
            let ghost w = self.width as int;
            let ghost before = surface@.cells;
            proof {
                assert(self.lines@[row as int].deep_view() =~= self.lines@[row as int]@);
                assert((row + 1) * w == row * w + w) by (nonlinear_arith);
                assert((row + 1) * w <= self.height * w) by (nonlinear_arith)
                    requires
                        row + 1 <= self.height,
                        w >= 0,
                ;
                assert(self.height * w == w * self.height) by (nonlinear_arith);
            }
            surface.put_chars(&self.lines[row], style, Position(0, row));
            proof {
                let lines = self.lines.deep_view();
                let cnt = crate::terminal_ui::write_count(
                    rect,
                    Position(0, row),
                    self.lines@[row as int]@,
                );
                assert forall|r: int, c: int|
                    0 <= r < row + 1 && 0 <= c < self.width implies surface@.cells[r * self.width
                    + c] == (Cell {
                    glyph: screen_glyph(lines, r, c),
                    style: Style::default_spec(),
                }) by {
                    if r < row {
                        lemma_row_major_separate(w, r, c, row as int);
                        assert(surface@.cells[r * w + c] == before[r * w + c]);
                    } else {
                        assert(r == row);
                        if c < cnt {
                            assert(surface@.cells[row * w + c] == (Cell {
                                glyph: self.lines@[row as int]@[c],
                                style,
                            }));
                        } else {
                            assert(row * w <= row * w + c < row * w + w);
                            assert(surface@.cells[row * w + c] == before[row * w + c]);
                            assert(before[row * w + c] == Cell::empty_spec());
                            assert(c >= lines[r].len());
                        }
                    }
                }
                assert forall|j: int|
                    (row + 1) * w <= j < surface@.cells.len() implies surface@.cells[j]
                    == Cell::empty_spec() by {
                    assert(surface@.cells[j] == before[j]);
                }
            }
            row = row + 1;
        }
        proof {
            let lines = self.lines.deep_view();
            assert forall|row2: int, col: int|
                0 <= row2 < self.height && 0 <= col < self.width implies surface@.cells[row2
                * self.width + col] == (Cell {
                glyph: screen_glyph(lines, row2, col),
                style: Style::default_spec(),
            }) by {
                let w = self.width as int;
                if row2 >= count {
                    assert(row2 * w + col >= count * w) by (nonlinear_arith)
                        requires
                            row2 >= count >= 0,
                            col >= 0,
                            w >= 0,
                    ;
                    assert((row2 + 1) * w == row2 * w + w) by (nonlinear_arith);
                    assert((row2 + 1) * w <= self.height * w) by (nonlinear_arith)
                        requires
                            row2 + 1 <= self.height,
                            w >= 0,
                    ;
                    assert(self.height * w == w * self.height) by (nonlinear_arith);
                    assert(surface@.cells[row2 * w + col] == Cell::empty_spec());
                    assert(row2 >= lines.len());
                }
            }
        }
        surface
    }
}

} // verus!
