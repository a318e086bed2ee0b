//! The seven pieces on their square of four by four cells, and their turns.

use vstd::prelude::*;
use crate::cell::Cell;
use crate::color::Color;
use crate::traits::{enumerate_cells, HasSize, IterateDimensions};

verus! {

/// The sixteen cells of a piece, row by row; `None` is an empty cell.
pub type Layout = Seq<Option<Cell>>;

/// Side of the square that holds a piece.
pub const SIDE: i32 = 4;

/// One of the falling pieces: a 4 by 4 square of cells.
#[derive(Debug, Clone, Copy, PartialEq, Eq)]
pub struct Brick([Option<Cell>; 16]);

impl View for Brick {
    type V = Layout;

    closed spec fn view(&self) -> Layout {
        self.0@
    }
}

/// Whether `(x, y)` lies inside the square of a piece.
pub open spec fn in_square(x: int, y: int) -> bool {
    0 <= x < 4 && 0 <= y < 4
}

/// The cell of a layout in column `x` of row `y`; nothing outside the square.
pub open spec fn layout_at(cells: Layout, x: int, y: int) -> Option<Cell> {
    if in_square(x, y) {
        cells[y * 4 + x]
    } else {
        None
    }
}

/// A layout with at least one cell that is not empty.
pub open spec fn occupied(cells: Layout) -> bool {
    exists|k: int| 0 <= k < 16 && (#[trigger] cells[k]) is Some
}

/// The layout with no cell at all.
pub open spec fn blank_layout() -> Layout {
    Seq::new(16, |k: int| None::<Cell>)
}

/// A quarter turn: the new cell in column `x` of row `y` is the old cell in
/// column `3 - y` of row `x`.
pub open spec fn rotated_left(cells: Layout) -> Layout {
    Seq::new(16, |k: int| cells[(k % 4) * 4 + (3 - k / 4)])
}

/// The opposite quarter turn: the new cell in column `x` of row `y` is the old
/// cell in column `y` of row `3 - x`.
pub open spec fn rotated_right(cells: Layout) -> Layout {
    Seq::new(16, |k: int| cells[(3 - k % 4) * 4 + k / 4])
}

/// The preview of a layout: every cell that is not empty becomes a marker.
pub open spec fn ghosted(cells: Layout) -> Layout {
    Seq::new(
        16,
        |k: int|
            if cells[k] is Some {
                Some(Cell::GhostMarker)
            } else {
                None
            },
    )
}

/// The colour of the shape with the given index.
pub open spec fn shape_color(index: int) -> Color {
    if index == 0 {
        Color(0, 255, 255)
    } else if index == 1 {
        Color(255, 255, 0)
    } else if index == 2 {
        Color(255, 0, 255)
    } else if index == 3 {
        Color(0, 0, 255)
    } else if index == 4 {
        Color(255, 165, 0)
    } else if index == 5 {
        Color(0, 255, 0)
    } else {
        Color(255, 0, 0)
    }
}

/// The cells that the shape with the given index covers: I, O, T, J, L, S and
/// Z for the indices 0 to 6.
pub open spec fn shape_covers(index: int, x: int, y: int) -> bool {
    if index == 0 {
        y == 1 && 0 <= x <= 3
    } else if index == 1 {
        1 <= x <= 2 && 1 <= y <= 2
    } else if index == 2 {
        (y == 1 && 0 <= x <= 2) || (y == 2 && x == 1)
    } else if index == 3 {
        (x == 2 && 0 <= y <= 2) || (x == 1 && y == 2)
    } else if index == 4 {
        (x == 1 && 0 <= y <= 2) || (x == 2 && y == 2)
    } else if index == 5 {
        (y == 1 && 2 <= x <= 3) || (y == 2 && 1 <= x <= 2)
    } else {
        (y == 1 && 0 <= x <= 1) || (y == 2 && 1 <= x <= 2)
    }
}

/// The layout of the shape with the given index.
pub open spec fn shape(index: int) -> Layout {
    Seq::new(
        16,
        |k: int|
            if shape_covers(index, k % 4, k / 4) {
                Some(Cell::Normal(shape_color(index)))
            } else {
                None
            },
    )
}

/// The shape index that an arbitrary integer selects: the remainder of its
/// absolute value by seven.
pub open spec fn shape_index(drawn: int) -> int {
    (if drawn < 0 {
        -drawn
    } else {
        drawn
    }) % 7
}

impl Brick {
    pub fn z() -> (brick: Self)
        ensures
            brick@ == shape(6),
    {
        let n: Option<Cell> = None;
        let c: Option<Cell> = Some(Cell::Normal(Color(255, 0, 0)));
        Self([n, n, n, n, c, c, n, n, n, c, c, n, n, n, n, n])
    }

    pub fn s() -> (brick: Self)
        ensures
            brick@ == shape(5),
    {
        let n: Option<Cell> = None;
        let c: Option<Cell> = Some(Cell::Normal(Color(0, 255, 0)));
        Self([n, n, n, n, n, n, c, c, n, c, c, n, n, n, n, n])
    }

    pub fn l() -> (brick: Self)
        ensures
            brick@ == shape(4),
    {
        let n: Option<Cell> = None;
        let c: Option<Cell> = Some(Cell::Normal(Color(255, 165, 0)));
        Self([n, c, n, n, n, c, n, n, n, c, c, n, n, n, n, n])
    }

    pub fn j() -> (brick: Self)
        ensures
            brick@ == shape(3),
    {
        let n: Option<Cell> = None;
        let c: Option<Cell> = Some(Cell::Normal(Color(0, 0, 255)));
        Self([n, n, c, n, n, n, c, n, n, c, c, n, n, n, n, n])
    }

    pub fn t() -> (brick: Self)
        ensures
            brick@ == shape(2),
    {
        let n: Option<Cell> = None;
        let c: Option<Cell> = Some(Cell::Normal(Color(255, 0, 255)));
        Self([n, n, n, n, c, c, c, n, n, c, n, n, n, n, n, n])
    }

    pub fn o() -> (brick: Self)
        ensures
            brick@ == shape(1),
    {
        let n: Option<Cell> = None;
        let c: Option<Cell> = Some(Cell::Normal(Color(255, 255, 0)));
        Self([n, n, n, n, n, c, c, n, n, c, c, n, n, n, n, n])
    }

    pub fn i() -> (brick: Self)
        ensures
            brick@ == shape(0),
    {
        let n: Option<Cell> = None;
        let c: Option<Cell> = Some(Cell::Normal(Color(0, 255, 255)));
        Self([n, n, n, n, c, c, c, c, n, n, n, n, n, n, n, n])
    }

    /// The shape that an arbitrary integer selects, negative ones included.
    pub fn by_index(i: i32) -> (brick: Self)
        ensures
            brick@ == shape(shape_index(i as int)),
    {
        let wide: i64 = i as i64;
        let magnitude: i64 = if wide < 0 {
            -wide
        } else {
            wide
        };
        let index: i64 = magnitude % 7;
        if index == 0 {
            Self::i()
        } else if index == 1 {
            Self::o()
        } else if index == 2 {
            Self::t()
        } else if index == 3 {
            Self::j()
        } else if index == 4 {
            Self::l()
        } else if index == 5 {
            Self::s()
        } else {
            Self::z()
        }
    }

    /// The preview variant of this piece.
    pub fn as_ghost(&self) -> (brick: Self)
        ensures
            brick@ == ghosted(self@),
    {
        let mut new = Self::default();
        let mut y: i32 = 0;
        while y < 4
            invariant
                0 <= y <= 4,
                forall|k: int| 0 <= k < y * 4 ==> new@[k] == ghosted(self@)[k],
                forall|k: int| y * 4 <= k < 16 ==> new@[k] is None,
            decreases 4 - y,
        {
            let mut x: i32 = 0;
            while x < 4
                invariant
                    0 <= y < 4,
                    0 <= x <= 4,
                    forall|k: int| 0 <= k < y * 4 + x ==> new@[k] == ghosted(self@)[k],
                    forall|k: int| y * 4 + x <= k < 16 ==> new@[k] is None,
                decreases 4 - x,
            {
                let ghost before = new@;
                if self.get_item(x, y).is_some() {
                    new.0[(y * 4 + x) as usize] = Some(Cell::GhostMarker);
                    assert(new@ == before.update(y * 4 + x, Some(Cell::GhostMarker)));
                }
                x += 1;
            }
            y += 1;
        }
        new
    }

    pub fn rotate_left(&self) -> (brick: Self)
        ensures
            brick@ == rotated_left(self@),
    {
        let mut new = Self::default();
        let mut i: usize = 0;
        while i < 4
            invariant
                i <= 4,
                forall|x: int, y: int|
                    0 <= x < i && 0 <= y < 4 ==> #[trigger] layout_at(new@, x, y) == layout_at(
                        self@,
                        3 - y,
                        x,
                    ),
            decreases 4 - i,
        {
            let mut j: usize = 0;
            while j < 4
                invariant
                    i < 4,
                    j <= 4,
                    forall|x: int, y: int|
                        0 <= x < i && 0 <= y < 4 ==> #[trigger] layout_at(new@, x, y) == layout_at(
                            self@,
                            3 - y,
                            x,
                        ),
                    forall|y: int|
                        0 <= y < j ==> #[trigger] layout_at(new@, i as int, y) == layout_at(
                            self@,
                            3 - y,
                            i as int,
                        ),
                decreases 4 - j,
            {
                let ghost before = new@;
                new.0[j * 4 + i] = self.0[i * 4 + (4 - j - 1)];
                proof {
                    assert forall|x: int, y: int| 0 <= x < i && 0 <= y < 4 implies #[trigger] layout_at(
                        new@,
                        x,
                        y,
                    ) == layout_at(self@, 3 - y, x) by {
                        assert(layout_at(new@, x, y) == layout_at(before, x, y));
                    }
                    assert forall|y: int| 0 <= y < j + 1 implies #[trigger] layout_at(
                        new@,
                        i as int,
                        y,
                    ) == layout_at(self@, 3 - y, i as int) by {
                        if y < j {
                            assert(layout_at(new@, i as int, y) == layout_at(before, i as int, y));
                        }
                    }
                }
                j += 1;
            }
            i += 1;
        }
        proof {
            assert forall|k: int| 0 <= k < 16 implies new@[k] == rotated_left(self@)[k] by {
                assert(new@[k] == layout_at(new@, k % 4, k / 4));
            }
        }
        new
    }

    pub fn rotate_right(&self) -> (brick: Self)
        ensures
            brick@ == rotated_right(self@),
    {
        self.rotate_left().rotate_left().rotate_left()
    }
}

impl Default for Brick {
    /// The piece with no cell.
    fn default() -> (brick: Self)
        ensures
            brick@ == blank_layout(),
    {
        let n: Option<Cell> = None;
        Self([n, n, n, n, n, n, n, n, n, n, n, n, n, n, n, n])
    }
}

impl HasSize for Brick {
    open spec fn spec_width(&self) -> int {
        4
    }

    open spec fn spec_height(&self) -> int {
        4
    }

    fn width(&self) -> (w: i32) {
        SIDE
    }

    fn height(&self) -> (h: i32) {
        SIDE
    }
}

impl IterateDimensions for Brick {
    type Output = Option<Cell>;

    open spec fn spec_item(&self, x: int, y: int) -> Option<Cell> {
        layout_at(self@, x, y)
    }

    open spec fn spec_shown(&self, x: int, y: int) -> Option<Cell> {
        layout_at(self@, x, y)
    }

    fn get_item(&self, x: i32, y: i32) -> (item: Option<Cell>) {
        let idx = y * self.width() + x;
        self.0[idx as usize]
    }

    fn iter_dim(&self) -> (items: Vec<(i32, i32, Option<Cell>)>) {
        enumerate_cells(self.0.as_slice(), SIDE, SIDE)
    }
}

/// Every piece has sixteen cells.
pub proof fn lemma_layout_len(brick: Brick)
    ensures
        brick@.len() == 16,
{
}

/// Three quarter turns to the left are one quarter turn to the right.
pub proof fn three_left_turns_make_a_right_turn(cells: Layout)
    requires
        cells.len() == 16,
    ensures
        rotated_left(rotated_left(rotated_left(cells))) == rotated_right(cells),
{
}

/// A quarter turn to the right undoes a quarter turn to the left, and the
/// other way round.
pub proof fn opposite_turns_cancel(cells: Layout)
    requires
        cells.len() == 16,
    ensures
        rotated_right(rotated_left(cells)) == cells,
        rotated_left(rotated_right(cells)) == cells,
{
    assert forall|k: int| 0 <= k < 16 implies rotated_right(rotated_left(cells))[k] == cells[k]
        && rotated_left(rotated_right(cells))[k] == cells[k] by {
        // Column and row of the cell in question.
        assert(k == (k / 4) * 4 + k % 4);
    }
}

/// Four quarter turns to the left give back the layout they started from, and
/// so do four to the right.
pub proof fn four_turns_are_none(cells: Layout)
    requires
        cells.len() == 16,
    ensures
        rotated_left(rotated_left(rotated_left(rotated_left(cells)))) == cells,
        rotated_right(rotated_right(rotated_right(rotated_right(cells)))) == cells,
{
    // Three turns to the left are one to the right, which the fourth undoes.
    opposite_turns_cancel(cells);
    // Four turns to the left change nothing, then, and they take back four
    // turns to the right one by one.
    let once = rotated_right(cells);
    let twice = rotated_right(once);
    let thrice = rotated_right(twice);
    let turned = rotated_right(thrice);
    three_left_turns_make_a_right_turn(turned);
    opposite_turns_cancel(turned);
    opposite_turns_cancel(thrice);
    opposite_turns_cancel(twice);
    opposite_turns_cancel(once);
}

/// Turning a layout moves its cells and never removes the last one.
pub proof fn turns_keep_cells(cells: Layout)
    requires
        cells.len() == 16,
        occupied(cells),
    ensures
        occupied(rotated_left(cells)),
        occupied(rotated_right(cells)),
{
    let k = choose|k: int| 0 <= k < 16 && (#[trigger] cells[k]) is Some;
    let x = k % 4;
    let y = k / 4;
    let left = (3 - x) * 4 + y;
    let right = x * 4 + (3 - y);
    assert(rotated_left(cells)[left] == cells[k]);
    assert(rotated_right(cells)[right] == cells[k]);
}

/// The preview of a layout has a cell exactly where the layout has one.
pub proof fn preview_keeps_cells(cells: Layout)
    requires
        cells.len() == 16,
    ensures
        forall|x: int, y: int| (#[trigger] layout_at(ghosted(cells), x, y)) is Some <==> layout_at(cells, x, y) is Some,
        occupied(cells) <==> occupied(ghosted(cells)),
        ghosted(ghosted(cells)) == ghosted(cells),
{
    if occupied(cells) {
        let k = choose|k: int| 0 <= k < 16 && (#[trigger] cells[k]) is Some;
        assert(ghosted(cells)[k] is Some);
    }
}

/// None of the seven shapes is blank.
pub proof fn shapes_are_occupied(index: int)
    requires
        0 <= index < 7,
    ensures
        shape(index).len() == 16,
        occupied(shape(index)),
{
    assert(shape(index)[6] is Some || shape(index)[5] is Some);
}

} // verus!
