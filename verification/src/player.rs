//! A piece with its place, before it becomes part of the board.

use vstd::prelude::*;
use crate::board::{Board, Grid};
use crate::brick::{ghosted, rotated_left, rotated_right, shape, shape_index, Brick, Layout};
use crate::cell::Cell;
use crate::traits::{HasSize, IterateDimensions};

verus! {

/// What a player is: a layout and the place of its top left corner on the
/// board.
pub struct Piece {
    pub x: int,
    pub y: int,
    pub cells: Layout,
}

impl Piece {
    /// The same layout, moved by `dx` columns and `dy` rows.
    pub open spec fn shifted(self, dx: int, dy: int) -> Piece {
        Piece { x: self.x + dx, y: self.y + dy, cells: self.cells }
    }

    /// Another layout at the same place.
    pub open spec fn with_cells(self, cells: Layout) -> Piece {
        Piece { x: self.x, y: self.y, cells }
    }

    /// Whether the piece lands on free places of the grid only.
    pub open spec fn fits(self, grid: Grid) -> bool {
        grid.fits(self.x, self.y, self.cells)
    }
}

/// Half of a width, rounded toward zero.
pub open spec fn half(width: int) -> int {
    if width >= 0 {
        width / 2
    } else {
        -((-width) / 2)
    }
}

/// A layout at the top of a board `width` columns wide, in the middle.
pub open spec fn centered(cells: Layout, width: int) -> Piece {
    Piece { x: half(width) - 2, y: 0, cells }
}

/// A piece together with where it is: not yet part of the board.
#[derive(Debug, Clone, Copy, PartialEq, Eq)]
pub struct Player {
    position: (i32, i32),
    brick: Brick,
}

impl View for Player {
    type V = Piece;

    closed spec fn view(&self) -> Piece {
        Piece { x: self.position.0 as int, y: self.position.1 as int, cells: self.brick@ }
    }
}

impl Player {
    /// The preview of this piece at the same place.
    pub fn as_ghost(&self) -> (preview: Self)
        ensures
            preview@ == self@.with_cells(ghosted(self@.cells)),
    {
        Self { brick: self.brick.as_ghost(), position: self.position }
    }

    /// A piece at the top of a board `width` columns wide, in the middle.
    pub fn with_brick_centered(brick: Brick, width: i32) -> (player: Self)
        ensures
            player@ == centered(brick@, width as int),
    {
        let x = width / 2 - brick.width() / 2;
        Self { position: (x, 0), brick }
    }

    /// The shape that `idx` selects, at the top of the board in the middle.
    pub fn with_brick_centered_rand(width: i32, idx: i32) -> (player: Self)
        ensures
            player@ == centered(shape(shape_index(idx as int)), width as int),
    {
        let brick = Brick::by_index(idx);
        Self::with_brick_centered(brick, width)
    }

    pub fn position(&self) -> (position: (i32, i32))
        ensures
            position.0 == self@.x,
            position.1 == self@.y,
    {
        self.position
    }

    pub fn rotate_left(&self) -> (turned: Self)
        ensures
            turned@ == self@.with_cells(rotated_left(self@.cells)),
    {
        Self { position: self.position, brick: self.brick.rotate_left() }
    }

    pub fn rotate_right(&self) -> (turned: Self)
        ensures
            turned@ == self@.with_cells(rotated_right(self@.cells)),
    {
        Self { position: self.position, brick: self.brick.rotate_right() }
    }

    /// The piece one row lower.
    pub fn move_down(&self) -> (moved: Self)
        requires
            self@.y < i32::MAX,
        ensures
            moved@ == self@.shifted(0, 1),
    {
        Self { position: (self.position.0, self.position.1 + 1), brick: self.brick }
    }

    /// The piece one column to the left.
    pub fn move_left(&self) -> (moved: Self)
        requires
            self@.x > i32::MIN,
        ensures
            moved@ == self@.shifted(-1, 0),
    {
        Self { position: (self.position.0 - 1, self.position.1), brick: self.brick }
    }

    /// The piece one column to the right.
    pub fn move_right(&self) -> (moved: Self)
        requires
            self@.x < i32::MAX,
        ensures
            moved@ == self@.shifted(1, 0),
    {
        Self { position: (self.position.0 + 1, self.position.1), brick: self.brick }
    }

    /// Whether the piece lands on free places of the board only.
    pub fn brick_fits(&self, board: &Board) -> (fits: bool)
        ensures
            fits == self@.fits(board@),
            board@.wf(),
    {
        board.brick_fits(self.position, self.brick)
    }

    pub fn brick(&self) -> (brick: Brick)
        ensures
            brick@ == self@.cells,
    {
        self.brick
    }

    /// Another piece at the same place.
    pub fn set_brick(&self, brick: Brick) -> (changed: Self)
        ensures
            changed@ == self@.with_cells(brick@),
    {
        Self { brick, position: self.position }
    }
}

/// The layout of every player has sixteen cells.
pub proof fn lemma_piece_len(player: Player)
    ensures
        player@.cells.len() == 16,
{
    crate::brick::lemma_layout_len(player.brick);
}

impl Default for Player {
    /// The blank piece in the top left corner.
    fn default() -> (player: Self)
        ensures
            player@ == (Piece { x: 0, y: 0, cells: crate::brick::blank_layout() }),
    {
        Self { position: (0, 0), brick: Brick::default() }
    }
}

impl HasSize for Player {
    open spec fn spec_width(&self) -> int {
        4
    }

    open spec fn spec_height(&self) -> int {
        4
    }

    fn width(&self) -> (w: i32) {
        self.brick.width()
    }

    fn height(&self) -> (h: i32) {
        self.brick.height()
    }
}

impl IterateDimensions for Player {
    type Output = Option<Cell>;

    open spec fn spec_item(&self, x: int, y: int) -> Option<Cell> {
        crate::brick::layout_at(self@.cells, x, y)
    }

    open spec fn spec_shown(&self, x: int, y: int) -> Option<Cell> {
        crate::brick::layout_at(self@.cells, x, y)
    }

    fn get_item(&self, x: i32, y: i32) -> (item: Option<Cell>) {
        self.brick.get_item(x, y)
    }

    fn iter_dim(&self) -> (items: Vec<(i32, i32, Option<Cell>)>) {
        self.brick.iter_dim()
    }
}

} // verus!
