//! Cell-grid surface for terminal painting: a rectangle of styled glyphs that
//! text can be written onto, consumed by an unverified rendering routine.

use vstd::prelude::*;

verus! {

/// An axis-aligned rectangle of character cells, used both as the area of a
/// [`Surface`] and as the scrollable viewport of a text buffer.
///
/// The derived bounds are inclusive: the rightmost column is
/// `x + width - 1` and the bottom row is `y + height - 1`, saturating at the
/// origin when the width or height is zero.
#[derive(Clone, Copy, PartialEq, Eq, Structural, Debug)]
pub struct Rectangle {
    pub x: usize,
    pub y: usize,
    pub width: usize,
    pub height: usize,
}

/// An absolute `(column, row)` position on a surface.
#[derive(Clone, Copy, PartialEq, Eq, Structural, Debug)]
pub struct Position(pub usize, pub usize);

impl Rectangle {
    /// The far corner stays addressable: `x + width - 1` and `y + height - 1`
    /// do not overflow `usize`.
    pub open spec fn in_bounds(self) -> bool {
        &&& self.x + self.width <= usize::MAX as int + 1
        &&& self.y + self.height <= usize::MAX as int + 1
    }

    pub open spec fn spec_left(self) -> int {
        self.x as int
    }

    pub open spec fn spec_right(self) -> int {
        if self.width > 0 {
            self.x + self.width - 1
        } else {
            self.x as int
        }
    }

    pub open spec fn spec_top(self) -> int {
        self.y as int
    }

    pub open spec fn spec_bottom(self) -> int {
        if self.height > 0 {
            self.y + self.height - 1
        } else {
            self.y as int
        }
    }

    pub open spec fn spec_contains(self, position: Position) -> bool {
        &&& self.spec_left() <= position.0 <= self.spec_right()
        &&& self.spec_top() <= position.1 <= self.spec_bottom()
    }

    pub fn left(&self) -> (r: usize)
        ensures
            r == self.spec_left(),
    {
        self.x
    }

    pub fn right(&self) -> (r: usize)
        requires
            self.in_bounds(),
        ensures
            r == self.spec_right(),
    {
        if self.width > 0 {
            self.x + (self.width - 1)
        } else {
            self.x
        }
    }

    pub fn top(&self) -> (r: usize)
        ensures
            r == self.spec_top(),
    {
        self.y
    }

    pub fn bottom(&self) -> (r: usize)
        requires
            self.in_bounds(),
        ensures
            r == self.spec_bottom(),
    {
        if self.height > 0 {
            self.y + (self.height - 1)
        } else {
            self.y
        }
    }

    pub fn contains(&self, position: Position) -> (r: bool)
        requires
            self.in_bounds(),
        ensures
            r == self.spec_contains(position),
    {
        let Position(x, y) = position;
        self.left() <= x && x <= self.right() && self.top() <= y && y <= self.bottom()
    }
}

impl From<(u16, u16)> for Rectangle {
    /// A full-screen rectangle at the origin with the given `(width, height)`.
    fn from(dimensions: (u16, u16)) -> (r: Rectangle) {
        Rectangle {
            x: 0,
            y: 0,
            width: dimensions.0 as usize,
            height: dimensions.1 as usize,
        }
    }
}

impl vstd::std_specs::convert::FromSpecImpl<(u16, u16)> for Rectangle {
    open spec fn obeys_from_spec() -> bool {
        true
    }

    open spec fn from_spec(dimensions: (u16, u16)) -> Rectangle {
        Rectangle {
            x: 0,
            y: 0,
            width: dimensions.0 as usize,
            height: dimensions.1 as usize,
        }
    }
}

impl From<(usize, usize)> for Position {
    fn from(coordinates: (usize, usize)) -> (r: Position) {
        Position(coordinates.0, coordinates.1)
    }
}

impl vstd::std_specs::convert::FromSpecImpl<(usize, usize)> for Position {
    open spec fn obeys_from_spec() -> bool {
        true
    }

    open spec fn from_spec(coordinates: (usize, usize)) -> Position {
        Position(coordinates.0, coordinates.1)
    }
}

/// An RGB colour.
#[derive(Clone, Copy, PartialEq, Eq, Structural, Debug)]
pub struct Color {
    pub r: u8,
    pub g: u8,
    pub b: u8,
}

impl Color {
    pub fn rgb(r: u8, g: u8, b: u8) -> (c: Color)
        ensures
            c == (Color { r, g, b }),
    {
        Color { r, g, b }
    }
}

/// Text decoration applied to a cell.
#[derive(Clone, Copy, PartialEq, Eq, Structural, Debug)]
pub enum Formatting {
    Plain,
    Bold,
    Italic,
    Underline,
}

/// How a cell is drawn: background and foreground colours plus decoration.
#[derive(Clone, Copy, PartialEq, Eq, Structural, Debug)]
pub struct Style {
    pub bg: Color,
    pub fg: Color,
    pub formatting: Formatting,
}

impl Style {
    /// White text on a black background, undecorated.
    pub open spec fn default_spec() -> Style {
        Style {
            bg: Color { r: 0, g: 0, b: 0 },
            fg: Color { r: 255, g: 255, b: 255 },
            formatting: Formatting::Plain,
        }
    }
}

impl Default for Style {
    fn default() -> (s: Style)
        ensures
            s == Style::default_spec(),
    {
        Style {
            bg: Color::rgb(0, 0, 0),
            fg: Color::rgb(255, 255, 255),
            formatting: Formatting::Plain,
        }
    }
}

/// One character cell of a surface: a glyph and the style it is drawn with.
#[derive(Clone, Copy, PartialEq, Eq, Structural, Debug)]
pub struct Cell {
    pub glyph: char,
    pub style: Style,
}

impl Cell {
    /// A blank cell: a space in the default style.
    pub open spec fn empty_spec() -> Cell {
        Cell { glyph: ' ', style: Style::default_spec() }
    }

    pub fn empty() -> (c: Cell)
        ensures
            c == Cell::empty_spec(),
    {
        Cell { glyph: ' ', style: Style::default() }
    }
}

/// The number of cells a write at `position` fills: the text's length, clipped
/// at the end of the row, and nothing on a row outside the rectangle.
pub open spec fn write_count(rect: Rectangle, position: Position, text: Seq<char>) -> int {
    if position.1 < rect.height {
        vstd::math::min(text.len() as int, rect.width - position.0)
    } else {
        0
    }
}

/// A grid of character cells covering the whole terminal, stored row-major.
pub struct Surface {
    rect: Rectangle,
    cells: Vec<Cell>,
}

/// The mathematical model of a [`Surface`]: its rectangle and cell contents.
pub struct SurfaceView {
    pub rect: Rectangle,
    pub cells: Seq<Cell>,
}

impl View for Surface {
    type V = SurfaceView;

    closed spec fn view(&self) -> SurfaceView {
        SurfaceView { rect: self.rect, cells: self.cells@ }
    }
}

impl Surface {
    /// The rectangle sits at the origin (only full-screen surfaces are ever
    /// rendered) and there is exactly one cell per position in it.
    pub open spec fn wf(self) -> bool {
        &&& self@.rect.x == 0
        &&& self@.rect.y == 0
        &&& self@.cells.len() == self@.rect.width * self@.rect.height
    }

    /// A surface of blank cells covering `rect`.
    pub fn empty(rect: Rectangle) -> (s: Surface)
        requires
            rect.x == 0,
            rect.y == 0,
            rect.width * rect.height <= usize::MAX,
        ensures
            s.wf(),
            s@.rect == rect,
            forall|i: int| 0 <= i < s@.cells.len() ==> s@.cells[i] == Cell::empty_spec(),
    {
        let cells = vec![Cell::empty(); rect.width * rect.height];
        Surface { rect, cells }
    }

    pub fn rect(&self) -> (r: Rectangle)
        ensures
            r == self@.rect,
    {
        self.rect
    }

    /// The glyphs of all cells, row-major; the unverified renderer paints from
    /// this copy instead of reading the cells directly.
    pub fn glyphs(&self) -> (g: Vec<char>)
        ensures
            g@.len() == self@.cells.len(),
            forall|i: int| 0 <= i < g@.len() ==> g@[i] == self@.cells[i].glyph,
    {
        let mut g: Vec<char> = Vec::new();
        let mut i: usize = 0;
        while i < self.cells.len()
            invariant
                0 <= i <= self.cells.len(),
                g@.len() == i,
                forall|k: int| 0 <= k < i ==> g@[k] == self@.cells[k].glyph,
            decreases self.cells.len() - i,
        {
            g.push(self.cells[i].glyph);
            i = i + 1;
        }
        g
    }

    /// Writes `text` into the row of cells starting at `position`, clipped at
    /// the end of the row; every other cell keeps its contents.
    pub fn put_chars(&mut self, text: &Vec<char>, style: Style, position: Position)
        requires
            old(self).wf(),
            old(self)@.rect.spec_contains(position),
        ensures
            final(self).wf(),
            final(self)@.rect == old(self)@.rect,
            final(self)@.cells.len() == old(self)@.cells.len(),
            ({
                let w = old(self)@.rect.width as int;
                let start = position.1 * w + position.0;
                let count = write_count(old(self)@.rect, position, text@);
                &&& forall|i: int|
                    0 <= i < count ==> final(self)@.cells[start + i] == (Cell {
                        glyph: text@[i],
                        style,
                    })
                &&& forall|j: int|
                    0 <= j < old(self)@.cells.len() && !(start <= j < start + count)
                        ==> final(self)@.cells[j] == old(self)@.cells[j]
            }),
    {
        let w = self.rect.width;
        if position.1 >= self.rect.height {
            return ;
        }
        let ghost rect = self@.rect;
        let ghost h = self@.rect.height as int;
        let room: usize = w - position.0;
        let count: usize = if text.len() < room {
            text.len()
        } else {
            room
        };
        let total: usize = self.cells.len();
        proof {
            let p0 = position.0 as int;
            let p1 = position.1 as int;
            let wi = w as int;
            assert(p0 <= wi);
            assert((p1 + 1) * wi == p1 * wi + wi) by (nonlinear_arith);
            assert((p1 + 1) * wi <= h * wi) by (nonlinear_arith)
                requires
                    p1 + 1 <= h,
                    wi >= 0,
            ;
            assert(h * wi == wi * h) by (nonlinear_arith);
            assert(self@.cells.len() == wi * h);
        }
        let start: usize = position.1 * w + position.0;
        let mut i: usize = 0;
        while i < count
            invariant
                0 <= i <= count,
                start + count <= self.cells.len(),
                count <= text.len(),
                self@.rect == rect,
                self@.cells.len() == old(self)@.cells.len(),
                start == position.1 * rect.width + position.0,
                forall|k: int|
                    0 <= k < i ==> self@.cells[start + k] == (Cell { glyph: text@[k], style }),
                forall|j: int|
                    0 <= j < self@.cells.len() && !(start <= j < start + count) ==> self@.cells[j]
                        == old(self)@.cells[j],
            decreases count - i,
        {
            let glyph = text[i];
            self.cells[start + i] = Cell { glyph, style };
            i = i + 1;
        }
    }

    /// Writes a string slice at `position`, as [`Surface::put_chars`] does.
    pub fn put_string(&mut self, string: &str, style: Style, position: Position)
        requires
            old(self).wf(),
            old(self)@.rect.spec_contains(position),
        ensures
            final(self).wf(),
            final(self)@.rect == old(self)@.rect,
            final(self)@.cells.len() == old(self)@.cells.len(),
            ({
                let w = old(self)@.rect.width as int;
                let start = position.1 * w + position.0;
                let count = write_count(old(self)@.rect, position, string@);
                &&& forall|i: int|
                    0 <= i < count ==> final(self)@.cells[start + i] == (Cell {
                        glyph: string@[i],
                        style,
                    })
                &&& forall|j: int|
                    0 <= j < old(self)@.cells.len() && !(start <= j < start + count)
                        ==> final(self)@.cells[j] == old(self)@.cells[j]
            }),
    {
        let mut text: Vec<char> = Vec::new();
        let n = string.unicode_len();
        let mut i: usize = 0;
        while i < n
            invariant
                0 <= i <= n,
                n == string@.len(),
                text@.len() == i,
                forall|k: int| 0 <= k < i ==> text@[k] == string@[k],
            decreases n - i,
        {
            text.push(string.get_char(i));
            i = i + 1;
        }
        assert(text@ =~= string@);
        self.put_chars(&text, style, position)
    }
}

} // verus!
