//! The playing field and its model: collision, insertion and line clearing.

use vstd::prelude::*;
use crate::brick::{in_square, layout_at, Brick, Layout};
use crate::cell::Cell;
use crate::traits::{enumerate_cells, HasSize, IterateDimensions};

verus! {

/// Columns of the board that `Default` builds.
pub const WIDTH: u32 = 10;

/// Rows of the board that `Default` builds.
pub const HEIGHT: u32 = 20;

/// One row of a grid, from the left.
pub type Row = Seq<Option<Cell>>;

/// What a board is: a number of columns and the rows from the top down.
pub struct Grid {
    pub width: int,
    pub rows: Seq<Row>,
}

/// A row without a single cell.
pub open spec fn blank_row(width: int) -> Row {
    Seq::new(width as nat, |x: int| None::<Cell>)
}

/// A row in which every column holds a cell.
pub open spec fn row_full(row: Row) -> bool {
    forall|x: int| 0 <= x < row.len() ==> (#[trigger] row[x]) is Some
}

/// The rows that a line clear keeps: those with a hole.
pub open spec fn survives() -> spec_fn(Row) -> bool {
    |row: Row| !row_full(row)
}

impl Grid {
    pub open spec fn height(self) -> int {
        self.rows.len() as int
    }

    /// Every row spans the width.
    pub open spec fn wf(self) -> bool {
        &&& 0 <= self.width
        &&& forall|y: int| 0 <= y < self.rows.len() ==> (#[trigger] self.rows[y]).len() == self.width
    }

    /// The grid of the given size with no cell in it.
    pub open spec fn blank(width: int, height: int) -> Grid {
        Grid { width, rows: Seq::new(height as nat, |y: int| blank_row(width)) }
    }

    pub open spec fn contains(self, x: int, y: int) -> bool {
        0 <= x < self.width && 0 <= y < self.height()
    }

    /// The cell in column `x` of row `y`.
    pub open spec fn at(self, x: int, y: int) -> Option<Cell> {
        self.rows[y][x]
    }

    /// A place where nothing can be put: outside the grid, or holding a cell.
    pub open spec fn taken(self, x: int, y: int) -> bool {
        !self.contains(x, y) || self.at(x, y) is Some
    }

    /// The grid with one place changed; unchanged when the place lies outside.
    pub open spec fn with_cell(self, x: int, y: int, state: Option<Cell>) -> Grid {
        if self.contains(x, y) {
            Grid { width: self.width, rows: self.rows.update(y, self.rows[y].update(x, state)) }
        } else {
            self
        }
    }

    /// The grid with one row replaced; unchanged when there is no such row.
    pub open spec fn with_row(self, y: int, row: Row) -> Grid {
        if 0 <= y < self.height() {
            Grid { width: self.width, rows: self.rows.update(y, row) }
        } else {
            self
        }
    }

    /// Whether a layout put with its corner at `(ox, oy)` lands on free places
    /// only: every cell of it inside the grid and on no cell of the grid.
    pub open spec fn fits(self, ox: int, oy: int, cells: Layout) -> bool {
        forall|i: int, j: int|
            in_square(i, j) && (#[trigger] layout_at(cells, i, j)) is Some ==> !self.taken(
                ox + i,
                oy + j,
            )
    }

    /// The grid after a layout is written into it with its corner at
    /// `(ox, oy)`: each cell of the layout replaces what was there, and cells
    /// that land outside are dropped.
    pub open spec fn with_layout(self, ox: int, oy: int, cells: Layout) -> Grid {
        Grid {
            width: self.width,
            rows: Seq::new(
                self.rows.len(),
                |y: int|
                    Seq::new(
                        self.width as nat,
                        |x: int|
                            match layout_at(cells, x - ox, y - oy) {
                                Some(cell) => Some(cell),
                                None => self.rows[y][x],
                            },
                    ),
            ),
        }
    }

    /// `fits`, for the first `upto` cells of the layout only.
    spec fn fits_upto(self, ox: int, oy: int, cells: Layout, upto: int) -> bool {
        forall|i: int, j: int|
            in_square(i, j) && j * 4 + i < upto && (#[trigger] layout_at(cells, i, j)) is Some
                ==> !self.taken(ox + i, oy + j)
    }

    /// What `overlaid` shows at `(x, y)`.
    spec fn overlaid_at(self, ox: int, oy: int, cells: Layout, upto: int, x: int, y: int) -> Option<
        Cell,
    > {
        let i = x - ox;
        let j = y - oy;
        if in_square(i, j) && j * 4 + i < upto && layout_at(cells, i, j) is Some {
            layout_at(cells, i, j)
        } else {
            self.rows[y][x]
        }
    }

    /// `with_layout`, for the first `upto` cells of the layout only.
    spec fn overlaid(self, ox: int, oy: int, cells: Layout, upto: int) -> Grid {
        Grid {
            width: self.width,
            rows: Seq::new(
                self.rows.len(),
                |y: int|
                    Seq::new(
                        self.width as nat,
                        |x: int| self.overlaid_at(ox, oy, cells, upto, x, y),
                    ),
            ),
        }
    }

    /// Whether row `y` exists and has a cell in every column.
    pub open spec fn line_full(self, y: int) -> bool {
        0 <= y < self.height() && row_full(self.rows[y])
    }

    /// The grid after row `y` has dropped into the row below, replacing it and
    /// leaving a blank row behind; unchanged for the last row and for a row that
    /// does not exist.
    pub open spec fn dropped(self, y: int) -> Grid {
        if 0 <= y < self.height() - 1 {
            Grid {
                width: self.width,
                rows: self.rows.update(y + 1, self.rows[y]).update(y, blank_row(self.width)),
            }
        } else {
            self
        }
    }

    /// The grid after row `y` has moved `by` rows down, replacing the row it
    /// lands on and leaving a blank row behind.
    spec fn shifted(self, y: int, by: int) -> Grid {
        Grid {
            width: self.width,
            rows: self.rows.update(y + by, self.rows[y]).update(y, blank_row(self.width)),
        }
    }

    /// How many rows are full.
    pub open spec fn full_count(self) -> int {
        self.rows.len() - self.rows.filter(survives()).len()
    }

    /// The grid after every full row is removed: the other rows keep their
    /// order and sink to the bottom, and blank rows fill the top.
    pub open spec fn compacted(self) -> Grid {
        Grid {
            width: self.width,
            rows: Seq::new(self.full_count() as nat, |y: int| blank_row(self.width))
                + self.rows.filter(survives()),
        }
    }
}

/// The first `upto` marks of a row of text: `X` for a cell, `.` for a free
/// place, and the line's end after the last column.
pub open spec fn row_marks(row: Row, upto: int) -> Seq<char> {
    let marks = Seq::new(
        upto as nat,
        |x: int|
            if row[x] is Some {
                'X'
            } else {
                '.'
            },
    );
    if 0 < upto && upto == row.len() {
        marks.push('\n')
    } else {
        marks
    }
}

/// The text of the first `upto` rows of a grid, one line for each row.
pub open spec fn grid_text(grid: Grid, upto: int) -> Seq<char>
    decreases upto,
{
    if upto <= 0 {
        Seq::empty()
    } else {
        grid_text(grid, upto - 1) + row_marks(grid.rows[upto - 1], grid.rows[upto - 1].len() as int)
    }
}

/// The playing field: a fixed rectangle of cells, row 0 at the top.
#[derive(Debug)]
pub struct Board {
    size: (i32, i32),
    cells: Vec<Option<Cell>>,
}

impl View for Board {
    type V = Grid;

    closed spec fn view(&self) -> Grid {
        Grid {
            width: self.size.0 as int,
            rows: Seq::new(
                self.size.1 as nat,
                |y: int| Seq::new(self.size.0 as nat, |x: int| self.cells@[y * self.size.0 + x]),
            ),
        }
    }
}

/// A place of a row-major rectangle has its own slot among `width * height`.
proof fn lemma_slot(width: int, height: int, x: int, y: int)
    requires
        0 <= x < width,
        0 <= y < height,
    ensures
        0 <= y * width + x < width * height,
{
    assert(y * width + x < width * height) by (nonlinear_arith)
        requires
            0 <= x < width,
            0 <= y < height,
    ;
    assert(0 <= y * width) by (nonlinear_arith)
        requires
            0 <= y,
            0 <= width,
    ;
}

/// Two places of a row-major rectangle share a slot only if they are the same.
proof fn lemma_slot_unique(width: int, x1: int, y1: int, x2: int, y2: int)
    requires
        0 <= x1 < width,
        0 <= x2 < width,
        y1 * width + x1 == y2 * width + x2,
    ensures
        x1 == x2,
        y1 == y2,
{
    assert(y1 == y2) by (nonlinear_arith)
        requires
            0 <= x1 < width,
            0 <= x2 < width,
            y1 * width + x1 == y2 * width + x2,
    ;
}

/// Writing no cell of a layout leaves the grid as it is.
proof fn lemma_overlay_none(grid: Grid, ox: int, oy: int, cells: Layout)
    requires
        grid.wf(),
    ensures
        grid.overlaid(ox, oy, cells, 0) == grid,
{
    let over = grid.overlaid(ox, oy, cells, 0);
    assert forall|y: int| 0 <= y < grid.rows.len() implies #[trigger] over.rows[y] =~= grid.rows[y] by {}
    assert(over.rows =~= grid.rows);
}

/// Writing one more cell of a layout is one write, or none for an empty cell.
proof fn lemma_overlay_step(grid: Grid, ox: int, oy: int, cells: Layout, x: int, y: int)
    requires
        grid.wf(),
        in_square(x, y),
    ensures
        grid.overlaid(ox, oy, cells, y * 4 + x + 1) == if layout_at(cells, x, y) is Some {
            grid.overlaid(ox, oy, cells, y * 4 + x).with_cell(ox + x, oy + y, layout_at(cells, x, y))
        } else {
            grid.overlaid(ox, oy, cells, y * 4 + x)
        },
{
    let k = y * 4 + x;
    let before = grid.overlaid(ox, oy, cells, k);
    let after = grid.overlaid(ox, oy, cells, k + 1);
    let expected = if layout_at(cells, x, y) is Some {
        before.with_cell(ox + x, oy + y, layout_at(cells, x, y))
    } else {
        before
    };
    assert forall|b: int| 0 <= b < grid.rows.len() implies #[trigger] after.rows[b]
        =~= expected.rows[b] by {
        assert forall|a: int| 0 <= a < grid.width implies after.rows[b][a] == expected.rows[b][a] by {}
    }
    assert(after.rows =~= expected.rows);
}

/// The surviving rows from row `y` down: row `y` itself unless it is full,
/// then the surviving rows below it.
proof fn lemma_survivors_from(rows: Seq<Row>, y: int)
    requires
        0 <= y < rows.len(),
    ensures
        rows.subrange(y, rows.len() as int).filter(survives()) == if row_full(rows[y]) {
            rows.subrange(y + 1, rows.len() as int).filter(survives())
        } else {
            seq![rows[y]] + rows.subrange(y + 1, rows.len() as int).filter(survives())
        },
{
    let head = seq![rows[y]];
    let tail = rows.subrange(y + 1, rows.len() as int);
    assert(rows.subrange(y, rows.len() as int) =~= head + tail);
    reveal_with_fuel(Seq::filter, 2);
}

/// All sixteen cells written, the layout is in the grid.
proof fn lemma_overlay_all(grid: Grid, ox: int, oy: int, cells: Layout)
    ensures
        grid.overlaid(ox, oy, cells, 16) == grid.with_layout(ox, oy, cells),
{
    let over = grid.overlaid(ox, oy, cells, 16);
    let with = grid.with_layout(ox, oy, cells);
    assert forall|y: int| 0 <= y < grid.rows.len() implies #[trigger] over.rows[y] =~= with.rows[y] by {
        assert forall|x: int| 0 <= x < grid.width implies over.rows[y][x] == with.rows[y][x] by {}
    }
    assert(over.rows =~= with.rows);
}

impl Board {
    #[verifier::type_invariant]
    spec fn well_formed(&self) -> bool {
        &&& 0 <= self.size.0
        &&& 0 <= self.size.1
        &&& self.cells@.len() == self.size.0 * self.size.1
    }

    /// An empty board of `w` columns and `h` rows.
    pub fn new(w: i32, h: i32) -> (board: Self)
        requires
            0 <= w,
            0 <= h,
        ensures
            board@ == Grid::blank(w as int, h as int),
            board@.wf(),
    {
        let mut cells: Vec<Option<Cell>> = Vec::new();
        let mut y: i32 = 0;
        while y < h
            invariant
                0 <= w,
                0 <= y <= h,
                cells@.len() == y * w,
                forall|k: int| 0 <= k < cells@.len() ==> cells@[k] is None,
            decreases h - y,
        {
            let mut x: i32 = 0;
            while x < w
                invariant
                    0 <= y < h,
                    0 <= x <= w,
                    cells@.len() == y * w + x,
                    forall|k: int| 0 <= k < cells@.len() ==> cells@[k] is None,
                decreases w - x,
            {
                cells.push(None);
                x += 1;
            }
            assert(y * w + w == (y + 1) * w) by (nonlinear_arith);
            y += 1;
        }
        assert(h * w == w * h) by (nonlinear_arith);
        let board = Self { size: (w, h), cells };
        proof {
            assert forall|y: int| 0 <= y < h implies #[trigger] board@.rows[y] =~= blank_row(
                w as int,
            ) by {
                assert forall|x: int| 0 <= x < w implies board@.rows[y][x] is None by {
                    lemma_slot(w as int, h as int, x, y);
                }
            }
            assert(board@.rows =~= Grid::blank(w as int, h as int).rows);
        }
        board
    }

    /// The slot of an inside place in the row-major storage.
    fn slot(&self, x: i64, y: i64) -> (idx: usize)
        requires
            self@.contains(x as int, y as int),
        ensures
            idx == y * self@.width + x,
            idx < self.cells@.len(),
            self.cells@[idx as int] == self@.at(x as int, y as int),
            self@.wf(),
    {
        proof {
            use_type_invariant(self);
            lemma_slot(self.size.0 as int, self.size.1 as int, x as int, y as int);
            assert(0 <= y * self.size.0) by (nonlinear_arith)
                requires
                    0 <= y,
                    0 <= self.size.0,
            ;
        }
        // The cells are as many as a `usize` can count, so the slot is one too.
        let _ = self.cells.len();
        y as usize * self.size.0 as usize + x as usize
    }

    /// Whether `(x, y)` is a place of the board.
    fn holds(&self, x: i64, y: i64) -> (inside: bool)
        ensures
            inside == self@.contains(x as int, y as int),
            self@.wf(),
    {
        proof {
            use_type_invariant(self);
        }
        x >= 0 && x < self.size.0 as i64 && y >= 0 && y < self.size.1 as i64
    }

    /// Writes one place; a place outside the board is left alone.
    fn put(&mut self, x: i64, y: i64, state: Option<Cell>)
        ensures
            final(self)@ == old(self)@.with_cell(x as int, y as int, state),
            final(self)@.wf(),
    {
        proof {
            use_type_invariant(&*self);
        }
        if self.holds(x, y) {
            let idx = self.slot(x, y);
            let ghost before = *self;
            self.cells[idx] = state;
            proof {
                let w = self.size.0 as int;
                let expected = before@.with_cell(x as int, y as int, state);
                assert forall|b: int| 0 <= b < self.size.1 implies #[trigger] self@.rows[b]
                    =~= expected.rows[b] by {
                    assert forall|a: int| 0 <= a < w implies self@.rows[b][a]
                        == expected.rows[b][a] by {
                        lemma_slot(w, self.size.1 as int, a, b);
                        if b * w + a == y * w + x {
                            lemma_slot_unique(w, a, b, x as int, y as int);
                        }
                    }
                }
                assert(self@.rows =~= expected.rows);
            }
        }
    }

    /// Writes one place; a place outside the board is left alone.
    pub fn set_field(&mut self, place: (i32, i32), state: Option<Cell>)
        ensures
            final(self)@ == old(self)@.with_cell(place.0 as int, place.1 as int, state),
            final(self)@.wf(),
    {
        self.put(place.0 as i64, place.1 as i64, state);
    }

    /// Whether nothing can be put at a place: it holds a cell or lies outside.
    fn occupied_at(&self, x: i64, y: i64) -> (taken: bool)
        ensures
            taken == self@.taken(x as int, y as int),
            self@.wf(),
    {
        if self.holds(x, y) {
            let idx = self.slot(x, y);
            self.cells[idx].is_some()
        } else {
            true
        }
    }

    /// Whether nothing can be put at a place: it holds a cell or lies outside.
    pub fn is_taken(&self, place: (i32, i32)) -> (taken: bool)
        ensures
            taken == self@.taken(place.0 as int, place.1 as int),
            self@.wf(),
    {
        self.occupied_at(place.0 as i64, place.1 as i64)
    }

    /// Writes every cell of a piece into the board, the piece's corner at
    /// `offset`. Cells that land outside the board are dropped.
    pub fn insert_brick(&mut self, offset: (i32, i32), brick: Brick)
        ensures
            final(self)@ == old(self)@.with_layout(offset.0 as int, offset.1 as int, brick@),
            final(self)@.wf(),
    {
        let ox = offset.0 as i64;
        let oy = offset.1 as i64;
        proof {
            use_type_invariant(&*self);
            lemma_overlay_none(self@, ox as int, oy as int, brick@);
        }
        let mut y: i32 = 0;
        while y < 4
            invariant
                0 <= y <= 4,
                ox == offset.0,
                oy == offset.1,
                old(self)@.wf(),
                self@ == old(self)@.overlaid(ox as int, oy as int, brick@, y * 4),
            decreases 4 - y,
        {
            let mut x: i32 = 0;
            while x < 4
                invariant
                    0 <= y < 4,
                    0 <= x <= 4,
                    ox == offset.0,
                    oy == offset.1,
                    old(self)@.wf(),
                    self@ == old(self)@.overlaid(ox as int, oy as int, brick@, y * 4 + x),
                decreases 4 - x,
            {
                let cell = brick.get_item(x, y);
                proof {
                    lemma_overlay_step(
                        old(self)@,
                        ox as int,
                        oy as int,
                        brick@,
                        x as int,
                        y as int,
                    );
                }
                if cell.is_some() {
                    self.put(ox + x as i64, oy + y as i64, cell);
                }
                x += 1;
            }
            y += 1;
        }
        proof {
            lemma_overlay_all(old(self)@, ox as int, oy as int, brick@);
        }
    }

    /// Whether a piece with its corner at `offset` lands on free places only.
    pub fn brick_fits(&self, offset: (i32, i32), brick: Brick) -> (fits: bool)
        ensures
            fits == self@.fits(offset.0 as int, offset.1 as int, brick@),
            self@.wf(),
    {
        let ox = offset.0 as i64;
        let oy = offset.1 as i64;
        proof {
            use_type_invariant(self);
        }
        let mut res = true;
        let mut y: i32 = 0;
        while y < 4
            invariant
                0 <= y <= 4,
                ox == offset.0,
                oy == offset.1,
                res == self@.fits_upto(ox as int, oy as int, brick@, y * 4),
            decreases 4 - y,
        {
            let mut x: i32 = 0;
            while x < 4
                invariant
                    0 <= y < 4,
                    0 <= x <= 4,
                    ox == offset.0,
                    oy == offset.1,
                    res == self@.fits_upto(ox as int, oy as int, brick@, y * 4 + x),
                decreases 4 - x,
            {
                let cell = brick.get_item(x, y);
                let taken = self.occupied_at(x as i64 + ox, y as i64 + oy);
                if cell.is_some() && taken {
                    res = false;
                }
                x += 1;
            }
            y += 1;
        }
        res
    }

    /// Whether row `y` exists and has a cell in every column.
    pub fn line_full(&self, y: i32) -> (full: bool)
        ensures
            full == self@.line_full(y as int),
            self@.wf(),
    {
        proof {
            use_type_invariant(self);
        }
        if y < 0 || y > self.size.1 - 1 {
            return false;
        }
        let mut x: i32 = 0;
        while x < self.size.0
            invariant
                0 <= x <= self.size.0,
                0 <= y < self.size.1,
                self@.wf(),
                forall|a: int| 0 <= a < x ==> (#[trigger] self@.rows[y as int][a]) is Some,
            decreases self.size.0 - x,
        {
            if !self.is_taken((x, y)) {
                return false;
            }
            x += 1;
        }
        true
    }

    /// Empties row `y`; does nothing when there is no such row.
    pub fn clear_line(&mut self, y: i32)
        ensures
            final(self)@ == old(self)@.with_row(y as int, blank_row(old(self)@.width)),
            final(self)@.wf(),
    {
        proof {
            use_type_invariant(&*self);
        }
        let w = self.size.0;
        let h = self.size.1;
        if y < 0 || y >= h {
            return ;
        }
        let mut x: i32 = 0;
        proof {
            let start = Seq::new(w as nat, |a: int| if a < 0 { None } else { self@.rows[y as int][a] });
            assert(start =~= self@.rows[y as int]);
            assert(self@.rows =~= self@.with_row(y as int, start).rows);
        }
        while x < w
            invariant
                0 <= x <= w,
                0 <= y < h,
                w == old(self)@.width,
                h == old(self)@.height(),
                old(self)@.wf(),
                self@ == old(self)@.with_row(
                    y as int,
                    Seq::new(
                        w as nat,
                        |a: int|
                            if a < x {
                                None
                            } else {
                                old(self)@.rows[y as int][a]
                            },
                    ),
                ),
            decreases w - x,
        {
            self.set_field((x, y), None);
            proof {
                let target = old(self)@.with_row(
                    y as int,
                    Seq::new(
                        w as nat,
                        |a: int|
                            if a < x + 1 {
                                None
                            } else {
                                old(self)@.rows[y as int][a]
                            },
                    ),
                );
                assert(self@.rows[y as int] =~= target.rows[y as int]);
                assert(self@.rows =~= target.rows);
            }
            x += 1;
        }
        proof {
            let target = old(self)@.with_row(y as int, blank_row(w as int));
            assert(self@.rows[y as int] =~= target.rows[y as int]);
        }
    }

    /// Moves row `y` down by `by` rows and leaves a blank row where it was.
    fn shift_line(&mut self, y: i32, by: i32)
        requires
            0 <= y,
            1 <= by,
            y + by < old(self)@.height(),
        ensures
            final(self)@ == old(self)@.shifted(y as int, by as int),
            final(self)@.wf(),
    {
        proof {
            use_type_invariant(&*self);
        }
        let w = self.size.0;
        let h = self.size.1;
        let mut x: i32 = 0;
        while x < w
            invariant
                0 <= x <= w,
                0 <= y,
                1 <= by,
                y + by < h,
                w == old(self)@.width,
                h == old(self)@.height(),
                old(self)@.wf(),
                self@.wf(),
                self@.width == w,
                self@.height() == h,
                forall|b: int|
                    0 <= b < h && b != y && b != y + by ==> #[trigger] self@.rows[b] == old(
                        self,
                    )@.rows[b],
                forall|a: int|
                    0 <= a < w ==> #[trigger] self@.rows[y as int][a] == if a < x {
                        None
                    } else {
                        old(self)@.rows[y as int][a]
                    },
                forall|a: int|
                    0 <= a < w ==> #[trigger] self@.rows[y + by][a] == if a < x {
                        old(self)@.rows[y as int][a]
                    } else {
                        old(self)@.rows[y + by][a]
                    },
            decreases w - x,
        {
            let from = self.slot(x as i64, y as i64);
            let tmp = self.cells[from];
            self.put(x as i64, y as i64, None);
            self.put(x as i64, y as i64 + by as i64, tmp);
            x += 1;
        }
        proof {
            let target = old(self)@.shifted(y as int, by as int);
            assert forall|b: int| 0 <= b < h implies #[trigger] self@.rows[b] =~= target.rows[b] by {}
            assert(self@.rows =~= target.rows);
        }
    }

    /// Lets row `y` fall into the row below it, leaving a blank row behind.
    /// Does nothing for the last row or for a row that does not exist.
    pub fn drop_line(&mut self, y: i32)
        ensures
            final(self)@ == old(self)@.dropped(y as int),
            final(self)@.wf(),
    {
        proof {
            use_type_invariant(&*self);
        }
        if y >= 0 && y < self.size.1 - 1 {
            self.shift_line(y, 1);
        }
    }

    /// Removes every full row. The rows above a removed row sink, keeping
    /// their order, and blank rows come in at the top. Returns how many rows
    /// were removed.
    pub fn clean_drop(&mut self) -> (cleared: u32)
        ensures
            final(self)@ == old(self)@.compacted(),
            cleared == old(self)@.full_count(),
            final(self)@.wf(),
    {
        proof {
            use_type_invariant(&*self);
        }
        let h = self.size.1;
        let ghost w = self.size.0 as int;
        let ghost start = self@.rows;
        let mut cleared: i32 = 0;
        let mut y: i32 = h;
        while y > 0
            invariant
                0 <= y <= h,
                0 <= cleared,
                y + cleared <= h,
                start == old(self)@.rows,
                old(self)@.wf(),
                self@.wf(),
                self@.width == w,
                old(self)@.width == w,
                self@.height() == h,
                start.len() == h,
                forall|r: int| 0 <= r < y ==> #[trigger] self@.rows[r] == start[r],
                forall|r: int| y <= r < y + cleared ==> #[trigger] self@.rows[r] == blank_row(w),
                self@.rows.subrange(y + cleared, h as int) == start.subrange(
                    y as int,
                    h as int,
                ).filter(survives()),
            decreases y,
        {
            y -= 1;
            proof {
                lemma_survivors_from(start, y as int);
            }
            if self.line_full(y) {
                self.clear_line(y);
                cleared += 1;
            } else if cleared > 0 {
                self.shift_line(y, cleared);
            }
        }
        proof {
            assert(start.subrange(0, h as int) =~= start);
            let kept = start.filter(survives());
            assert(self@.rows =~= Seq::new(cleared as nat, |r: int| blank_row(w)) + kept);
        }
        cleared as u32
    }

    /// One line of text for each row, `X` for a cell and `.` for a free place.
    pub fn to_text(&self) -> (text: String)
        ensures
            text@ == grid_text(self@, self@.height()),
    {
        proof {
            use_type_invariant(self);
            reveal_strlit("X");
            reveal_strlit(".");
            reveal_strlit("\n");
        }
        let w = self.size.0;
        let h = self.size.1;
        let mut text = String::new();
        let mut y: i32 = 0;
        while y < h
            invariant
                0 <= y <= h,
                w == self@.width,
                h == self@.height(),
                self@.wf(),
                "X"@ == seq!['X'],
                "."@ == seq!['.'],
                "\n"@ == seq!['\n'],
                text@ == grid_text(self@, y as int),
            decreases h - y,
        {
            let ghost done = text@;
            let mut x: i32 = 0;
            while x < w
                invariant
                    0 <= y < h,
                    0 <= x <= w,
                    w == self@.width,
                    h == self@.height(),
                    self@.wf(),
                    "X"@ == seq!['X'],
                    "."@ == seq!['.'],
                    "\n"@ == seq!['\n'],
                    text@ == done + row_marks(self@.rows[y as int], x as int),
                decreases w - x,
            {
                if self.is_taken((x, y)) {
                    text = text.concat("X");
                } else {
                    text = text.concat(".");
                }
                if x == w - 1 {
                    text = text.concat("\n");
                }
                x += 1;
            }
            y += 1;
        }
        text
    }
}

impl Clone for Board {
    fn clone(&self) -> (copy: Self)
        ensures
            copy@ == self@,
    {
        proof {
            use_type_invariant(self);
        }
        let mut cells: Vec<Option<Cell>> = Vec::new();
        let mut k: usize = 0;
        while k < self.cells.len()
            invariant
                k <= self.cells@.len(),
                cells@ == self.cells@.subrange(0, k as int),
            decreases self.cells@.len() - k,
        {
            cells.push(self.cells[k]);
            k += 1;
        }
        assert(cells@ =~= self.cells@);
        Self { size: self.size, cells }
    }
}

impl Default for Board {
    /// An empty board of the customary size, ten columns by twenty rows.
    fn default() -> (board: Self)
        ensures
            board@ == Grid::blank(10, 20),
    {
        Self::new(WIDTH as i32, HEIGHT as i32)
    }
}

impl HasSize for Board {
    open spec fn spec_width(&self) -> int {
        self@.width
    }

    open spec fn spec_height(&self) -> int {
        self@.height()
    }

    fn width(&self) -> (w: i32) {
        self.size.0
    }

    fn height(&self) -> (h: i32) {
        proof {
            use_type_invariant(self);
        }
        self.size.1
    }
}

impl IterateDimensions for Board {
    type Output = Option<Cell>;

    open spec fn spec_item(&self, x: int, y: int) -> Option<Cell> {
        self@.at(x, y)
    }

    open spec fn spec_shown(&self, x: int, y: int) -> Option<Cell> {
        self@.at(x, y)
    }

    fn get_item(&self, x: i32, y: i32) -> (item: Option<Cell>) {
        let idx = self.slot(x as i64, y as i64);
        self.cells[idx]
    }

    fn iter_dim(&self) -> (items: Vec<(i32, i32, Option<Cell>)>) {
        proof {
            use_type_invariant(self);
        }
        let items = enumerate_cells(self.cells.as_slice(), self.size.0, self.size.1);
        proof {
            assert forall|x: int, y: int|
                0 <= x < self.spec_width() && 0 <= y < self.spec_height() implies #[trigger] items@[y
                * self.spec_width() + x] == (x as i32, y as i32, self.spec_shown(x, y)) by {}
        }
        items
    }
}

/// The boundary is closed: a layout with a cell that lands left or right of
/// the grid, above it or below it, does not fit.
pub proof fn outside_never_fits(grid: Grid, ox: int, oy: int, cells: Layout, i: int, j: int)
    requires
        in_square(i, j),
        layout_at(cells, i, j) is Some,
        ox + i < 0 || ox + i >= grid.width || oy + j < 0 || oy + j >= grid.height(),
    ensures
        !grid.fits(ox, oy, cells),
{
}

/// A layout that fits has every cell inside the grid and on a free place.
pub proof fn fitting_cells_are_free(grid: Grid, ox: int, oy: int, cells: Layout, i: int, j: int)
    requires
        grid.fits(ox, oy, cells),
        in_square(i, j),
        layout_at(cells, i, j) is Some,
    ensures
        grid.contains(ox + i, oy + j),
        grid.at(ox + i, oy + j) is None,
{
}

/// The rows that survive a line clear are rows of the grid: as wide, and no
/// more than there were.
proof fn lemma_survivors_span(rows: Seq<Row>, width: int)
    requires
        forall|y: int| 0 <= y < rows.len() ==> (#[trigger] rows[y]).len() == width,
    ensures
        rows.filter(survives()).len() <= rows.len(),
        forall|y: int|
            0 <= y < rows.filter(survives()).len() ==> (#[trigger] rows.filter(survives())[y]).len()
                == width,
    decreases rows.len(),
{
    reveal(Seq::filter);
    if rows.len() > 0 {
        lemma_survivors_span(rows.drop_last(), width);
    }
}

/// A line clear keeps the size of the grid, and it removes no more rows
/// than there are.
pub proof fn compacting_keeps_the_size(grid: Grid)
    requires
        grid.wf(),
    ensures
        grid.compacted().wf(),
        grid.compacted().width == grid.width,
        grid.compacted().height() == grid.height(),
        0 <= grid.full_count() <= grid.height(),
{
    lemma_survivors_span(grid.rows, grid.width);
}

/// Rows that all have a hole all survive a line clear.
proof fn lemma_all_survive(rows: Seq<Row>)
    requires
        forall|y: int| 0 <= y < rows.len() ==> !row_full(#[trigger] rows[y]),
    ensures
        rows.filter(survives()) == rows,
    decreases rows.len(),
{
    reveal(Seq::filter);
    if rows.len() > 0 {
        let front = rows.drop_last();
        assert forall|y: int| 0 <= y < front.len() implies !row_full(#[trigger] front[y]) by {}
        lemma_all_survive(front);
    }
}

/// On a grid with at least one column whose last row is full and whose other
/// rows hold no cell, a line clear removes one row and leaves the grid blank.
pub proof fn clearing_the_only_row_leaves_nothing(grid: Grid)
    requires
        grid.wf(),
        grid.width > 0,
        grid.height() > 0,
        grid.line_full(grid.height() - 1),
        forall|x: int, y: int|
            0 <= x < grid.width && 0 <= y < grid.height() - 1 ==> (#[trigger] grid.at(x, y))
                is None,
    ensures
        grid.full_count() == 1,
        grid.compacted() == Grid::blank(grid.width, grid.height()),
{
    let h = grid.height();
    let above = grid.rows.subrange(0, h - 1);
    assert forall|y: int| 0 <= y < above.len() implies !row_full(#[trigger] above[y]) by {
        assert(grid.at(0, y) is None);
    }
    lemma_all_survive(above);
    reveal_with_fuel(Seq::filter, 2);
    assert forall|y: int| 0 <= y < h implies #[trigger] grid.compacted().rows[y] =~= blank_row(
        grid.width,
    ) by {
        if y >= 1 {
            let row = grid.rows[y - 1];
            assert forall|x: int| 0 <= x < grid.width implies (#[trigger] row[x]) is None by {
                assert(grid.at(x, y - 1) is None);
            }
        }
    }
    assert(grid.compacted().rows =~= Grid::blank(grid.width, grid.height()).rows);
}

} // verus!
