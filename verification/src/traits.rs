//! What boards, pieces and games have in common: a size, cells to read, and
//! for games a source of pieces.

use vstd::prelude::*;

verus! {

/// Something laid out on a rectangle of cells.
pub trait HasSize {
    /// Number of columns.
    spec fn spec_width(&self) -> int;

    /// Number of rows.
    spec fn spec_height(&self) -> int;

    fn width(&self) -> (w: i32)
        ensures
            w == self.spec_width(),
    ;

    fn height(&self) -> (h: i32)
        ensures
            h == self.spec_height(),
    ;

    fn size(&self) -> (s: (i32, i32))
        ensures
            s.0 == self.spec_width(),
            s.1 == self.spec_height(),
    {
        (self.width(), self.height())
    }
}

/// Number of cells of a rectangle; none when either side is not positive.
pub open spec fn cell_count(width: int, height: int) -> int {
    if width > 0 && height > 0 {
        width * height
    } else {
        0
    }
}

/// A rectangle whose cells can be read one by one or enumerated row by row.
///
/// `spec_item` is what a single read returns; `spec_shown` is what the
/// enumeration presents at the same place. The two agree for every type that
/// has nothing to overlay.
pub trait IterateDimensions: HasSize {
    type Output;

    spec fn spec_item(&self, x: int, y: int) -> Self::Output;

    spec fn spec_shown(&self, x: int, y: int) -> Self::Output;

    /// Reads the cell in column `x` of row `y`.
    fn get_item(&self, x: i32, y: i32) -> (item: Self::Output)
        requires
            0 <= x < self.spec_width(),
            0 <= y < self.spec_height(),
        ensures
            item == self.spec_item(x as int, y as int),
    ;

    /// Every cell with its coordinates, row by row from the top, each row
    /// from the left.
    fn iter_dim(&self) -> (items: Vec<(i32, i32, Self::Output)>)
        ensures
            items@.len() == cell_count(self.spec_width(), self.spec_height()),
            forall|x: int, y: int|
                0 <= x < self.spec_width() && 0 <= y < self.spec_height() ==> #[trigger] items@[y
                    * self.spec_width() + x] == (x as i32, y as i32, self.spec_shown(x, y)),
    ;
}

/// A source of piece indices. Any sequence will do; the engine reduces each
/// value to one of the seven shapes.
pub trait Randomizer: Sized {
    /// The value that `next` yields and the source that it leaves, where the
    /// source settles them in advance; `None` where nobody can tell.
    open spec fn upcoming(&self) -> Option<(i32, Self)> {
        None
    }

    fn next(&mut self) -> (v: i32)
        ensures
            old(self).upcoming() matches Some((announced, rest)) ==> v == announced && *final(self)
                == rest,
    ;
}

/// Whether `value` may have come out of `before`, leaving `after`: a source
/// that settles its values in advance yields what it announced and becomes what
/// it announced; of any other source nothing is known.
pub open spec fn drawn_from<R: Randomizer>(before: R, value: i32, after: R) -> bool {
    before.upcoming() matches Some((announced, rest)) ==> value == announced && after == rest
}

/// Enumerates a row-major rectangle of `width` by `height` cells.
pub fn enumerate_cells<T: Copy>(cells: &[T], width: i32, height: i32) -> (items: Vec<(i32, i32, T)>)
    requires
        0 <= width,
        0 <= height,
        cells@.len() == width * height,
    ensures
        items@.len() == cell_count(width as int, height as int),
        forall|x: int, y: int|
            0 <= x < width && 0 <= y < height ==> #[trigger] items@[y * width + x] == (
                x as i32,
                y as i32,
                cells@[y * width + x],
            ),
{
    let mut items: Vec<(i32, i32, T)> = Vec::new();
    let mut y: i32 = 0;
    while y < height
        invariant
            0 <= width,
            0 <= y <= height,
            cells@.len() == width * height,
            items@.len() == y * width,
            forall|a: int, b: int|
                0 <= a < width && 0 <= b < y ==> #[trigger] items@[b * width + a] == (
                    a as i32,
                    b as i32,
                    cells@[b * width + a],
                ),
        decreases height - y,
    {
        let mut x: i32 = 0;
        while x < width
            invariant
                0 <= y < height,
                0 <= x <= width,
                cells@.len() == width * height,
                items@.len() == y * width + x,
                forall|a: int, b: int|
                    0 <= a < width && 0 <= b < y ==> #[trigger] items@[b * width + a] == (
                        a as i32,
                        b as i32,
                        cells@[b * width + a],
                    ),
                forall|a: int|
                    0 <= a < x ==> #[trigger] items@[y * width + a] == (
                        a as i32,
                        y,
                        cells@[y * width + a],
                    ),
            decreases width - x,
        {
            proof {
                lemma_cell_index(width as int, x as int, y as int, height as int);
            }
            let idx: usize = items.len();
            let item = cells[idx];
            items.push((x, y, item));
            proof {
                assert forall|a: int, b: int| 0 <= a < width && 0 <= b < y implies #[trigger] items@[b
                    * width + a] == (a as i32, b as i32, cells@[b * width + a]) by {
                    lemma_cell_index(width as int, a, b, y as int);
                }
            }
            x += 1;
        }
        proof {
            assert(y * width + width == (y + 1) * width) by (nonlinear_arith);
            assert forall|a: int, b: int| 0 <= a < width && 0 <= b < y + 1 implies #[trigger] items@[b
                * width + a] == (a as i32, b as i32, cells@[b * width + a]) by {
            }
        }
        y += 1;
    }
    proof {
        assert(y * width == width * y) by (nonlinear_arith);
        assert(0 * width == 0) by (nonlinear_arith);
        assert(height * 0 == 0) by (nonlinear_arith);
    }
    items
}

/// In a row-major layout `width` columns wide, a cell of row `b` lies before
/// the start of any later row `y`.
proof fn lemma_cell_index(width: int, a: int, b: int, y: int)
    requires
        0 <= a < width,
        0 <= b < y,
    ensures
        0 <= b * width + a < y * width,
{
    assert(b * width + a < y * width) by (nonlinear_arith)
        requires
            0 <= a < width,
            0 <= b < y,
    ;
    assert(0 <= b * width) by (nonlinear_arith)
        requires
            0 <= b,
            0 <= width,
    ;
}

} // verus!
