//! The model of a game: its state, what each command and each tick make of
//! it, and what always holds of it.

use vstd::prelude::*;
use crate::board::{compacting_keeps_the_size, Grid};
use crate::brick::{
    ghosted, in_square, layout_at, occupied, rotated_left, rotated_right, shape, shape_index,
    shapes_are_occupied, turns_keep_cells, Layout,
};
use crate::command::{Command, Feedback};
use crate::player::{centered, Piece};

verus! {

/// What a game is at any moment, apart from its source of indices.
pub struct Game {
    /// The cells that have come to rest.
    pub board: Grid,
    /// The falling piece.
    pub player: Piece,
    /// Where the falling piece would land, as of the last tick.
    pub shadow: Piece,
    /// The shape that falls next.
    pub next: Layout,
    /// The shape set aside, if any.
    pub held: Option<Layout>,
    /// Ticks counted toward the next forced fall.
    pub timer: int,
    pub score: int,
}

/// Ticks between two forced falls.
pub const FRAMES_PER_FALL: u32 = 60;

/// Ticks that a move or a turn takes off the timer.
pub const EXTRA_FRAMES: u32 = 2;

/// The timer after a move or a turn: two ticks less, and never under 1.
pub open spec fn hurried(timer: int) -> int {
    if timer - 2 >= 1 {
        timer - 2
    } else {
        1
    }
}

/// The timer after a tick; past the largest value it starts again from 0.
pub open spec fn ticked(timer: int) -> int {
    if timer >= u32::MAX {
        0
    } else {
        timer + 1
    }
}

/// The score after `points` are awarded; it stops at the largest value.
pub open spec fn gain(score: int, points: int) -> int {
    if score + points >= u32::MAX {
        u32::MAX as int
    } else {
        score + points
    }
}

/// The points for rows cleared together: their number to the fourth power.
pub open spec fn clear_bonus(cleared: int) -> int {
    cleared * cleared * cleared * cleared
}

/// How many rows a piece can fall before it would leave the free places.
/// (The bound on `piece.y` only matters for a layout without a cell, which
/// fits everywhere.)
pub open spec fn descent(grid: Grid, piece: Piece) -> int
    decreases grid.height() - piece.y,
{
    if piece.y < grid.height() && piece.shifted(0, 1).fits(grid) {
        1 + descent(grid, piece.shifted(0, 1))
    } else {
        0
    }
}

/// The game that starts on an empty board of the given size when the source
/// yields `first` and then `second`.
pub open spec fn opening(width: int, height: int, first: int, second: int) -> Game {
    Game {
        board: Grid::blank(width, height),
        player: centered(shape(shape_index(first)), width),
        shadow: Piece { x: 0, y: 0, cells: crate::brick::blank_layout() },
        next: shape(shape_index(second)),
        held: None,
        timer: 1,
        score: 0,
    }
}

impl Game {
    /// What every game that the engine reaches has in common.
    pub open spec fn wf(self) -> bool {
        &&& self.board.wf()
        &&& self.board.width <= i32::MAX
        &&& self.board.height() <= i32::MAX
        &&& self.player.cells.len() == 16
        &&& occupied(self.player.cells)
        &&& -4 < self.player.x < self.board.width
        &&& 0 <= self.player.y
        &&& self.player.y == 0 || self.player.y < self.board.height()
        &&& self.shadow.cells.len() == 16
        &&& self.next.len() == 16
        &&& occupied(self.next)
        &&& self.held matches Some(cells) ==> cells.len() == 16 && occupied(cells)
        &&& 0 <= self.timer <= u32::MAX
        &&& 0 <= self.score <= u32::MAX
    }

    /// The falling piece replaced by `candidate` if that fits, with the timer
    /// hurried; otherwise the game as it is.
    pub open spec fn place(self, candidate: Piece) -> Game {
        if candidate.fits(self.board) {
            Game { player: candidate, timer: hurried(self.timer), ..self }
        } else {
            self
        }
    }

    pub open spec fn move_left(self) -> Game {
        self.place(self.player.shifted(-1, 0))
    }

    pub open spec fn move_right(self) -> Game {
        self.place(self.player.shifted(1, 0))
    }

    pub open spec fn rotate_left(self) -> Game {
        self.place(self.player.with_cells(rotated_left(self.player.cells)))
    }

    pub open spec fn rotate_right(self) -> Game {
        self.place(self.player.with_cells(rotated_right(self.player.cells)))
    }

    /// The next shape comes into play at the top, and the shape that `drawn`
    /// selects takes its place in the queue.
    pub open spec fn respawn(self, drawn: int) -> Game {
        Game {
            player: centered(self.next, self.board.width),
            next: shape(shape_index(drawn)),
            ..self
        }
    }

    /// `resting` becomes part of the board, and the next shape comes into play.
    pub open spec fn lock(self, resting: Piece, drawn: int) -> Game {
        Game {
            board: self.board.with_layout(resting.x, resting.y, resting.cells),
            ..self
        }.respawn(drawn)
    }

    /// Whether the falling piece has room one row lower.
    pub open spec fn can_fall(self) -> bool {
        self.player.shifted(0, 1).fits(self.board)
    }

    /// One row down for 1 point if there is room; otherwise the piece locks
    /// where it is, for 2 points.
    pub open spec fn move_down(self, drawn: int) -> Game {
        if self.can_fall() {
            Game {
                player: self.player.shifted(0, 1),
                timer: 1,
                score: gain(self.score, 1),
                ..self
            }
        } else {
            Game { score: gain(self.score, 2), ..self.lock(self.player, drawn) }
        }
    }

    /// Where the falling piece comes to rest when it falls all the way.
    pub open spec fn landing(self) -> Piece {
        self.player.shifted(0, descent(self.board, self.player))
    }

    /// The piece falls all the way and locks, for 1 point.
    pub open spec fn drop_block(self, drawn: int) -> Game {
        Game { timer: 1, score: gain(self.score, 1), ..self.lock(self.landing(), drawn) }
    }

    /// Whether a swap with the shape set aside would go through. With
    /// nothing set aside it always does.
    pub open spec fn can_swap(self) -> bool {
        match self.held {
            Some(cells) => self.player.with_cells(cells).fits(self.board),
            None => true,
        }
    }

    /// The falling shape and the shape set aside change places, if the
    /// latter fits where the piece is. With nothing set aside, the falling shape
    /// is set aside, the next shape comes into play and the timer is hurried.
    pub open spec fn swap_held(self, drawn: int) -> Game {
        match self.held {
            Some(cells) => if self.can_swap() {
                Game {
                    held: Some(self.player.cells),
                    player: self.player.with_cells(cells),
                    ..self
                }
            } else {
                self
            },
            None => Game {
                held: Some(self.player.cells),
                timer: hurried(self.timer),
                ..self.respawn(drawn)
            },
        }
    }

    /// The landing preview: the marker variant of the falling piece on the
    /// row where the piece would come to rest.
    pub open spec fn preview(self) -> Piece {
        self.landing().with_cells(ghosted(self.player.cells))
    }

    /// The game after the forced fall of a tick, if one is due.
    pub open spec fn gravity(self, drawn: int) -> Game {
        if self.timer % 60 == 0 {
            self.move_down(drawn)
        } else {
            self
        }
    }

    /// Full rows go and are paid for, the preview is found again, and the
    /// timer counts one tick.
    pub open spec fn settle(self) -> Game {
        let cleared = Game {
            board: self.board.compacted(),
            score: gain(self.score, clear_bonus(self.board.full_count())),
            ..self
        };
        Game { shadow: cleared.preview(), timer: ticked(self.timer), ..cleared }
    }

    /// One frame: the forced fall if it is due, then the rest.
    pub open spec fn tick(self, drawn: int) -> Game {
        self.gravity(drawn).settle()
    }

    /// The game after a command, for a source that would yield `drawn`.
    pub open spec fn command(self, command: Command, drawn: int) -> Game {
        match command {
            Command::MoveLeft => self.move_left(),
            Command::MoveRight => self.move_right(),
            Command::MoveDown => self.move_down(drawn),
            Command::RotateLeft => self.rotate_left(),
            Command::RotateRight => self.rotate_right(),
            Command::DropBlock => self.drop_block(drawn),
            Command::SwapHeld => self.swap_held(drawn),
        }
    }

    /// Whether a command takes a value from the source: one that locks the
    /// piece does, and so does the first swap.
    pub open spec fn draws(self, command: Command) -> bool {
        match command {
            Command::MoveDown => !self.can_fall(),
            Command::DropBlock => true,
            Command::SwapHeld => self.held is None,
            _ => false,
        }
    }

    /// What the player gets to hear of a command: of a turn, whether it was
    /// made; of a move to the side, only that it was refused; of the rest,
    /// nothing.
    pub open spec fn feedback(self, command: Command) -> Feedback {
        match command {
            Command::MoveLeft => if self.player.shifted(-1, 0).fits(self.board) {
                Feedback::Silent
            } else {
                Feedback::Refused
            },
            Command::MoveRight => if self.player.shifted(1, 0).fits(self.board) {
                Feedback::Silent
            } else {
                Feedback::Refused
            },
            Command::RotateLeft => if self.player.with_cells(rotated_left(self.player.cells)).fits(
                self.board,
            ) {
                Feedback::Turned
            } else {
                Feedback::Refused
            },
            Command::RotateRight => if self.player.with_cells(
                rotated_right(self.player.cells),
            ).fits(self.board) {
                Feedback::Turned
            } else {
                Feedback::Refused
            },
            _ => Feedback::Silent,
        }
    }

    /// What there is to see at a place of the board: the falling piece over the
    /// preview over the cells at rest.
    pub open spec fn scene(self) -> Grid {
        self.board.with_layout(self.shadow.x, self.shadow.y, self.shadow.cells).with_layout(
            self.player.x,
            self.player.y,
            self.player.cells,
        )
    }
}

/// A piece with a cell fits only where its square touches the grid.
pub proof fn lemma_fit_bounds(grid: Grid, piece: Piece)
    requires
        piece.cells.len() == 16,
        occupied(piece.cells),
        piece.fits(grid),
    ensures
        -4 < piece.x < grid.width,
        -4 < piece.y < grid.height(),
{
    let k = choose|k: int| 0 <= k < 16 && (#[trigger] piece.cells[k]) is Some;
    let i = k % 4;
    let j = k / 4;
    assert(layout_at(piece.cells, i, j) is Some);
}

/// A preview fits exactly where its piece fits.
pub proof fn lemma_preview_fits(grid: Grid, piece: Piece)
    requires
        piece.cells.len() == 16,
    ensures
        piece.with_cells(ghosted(piece.cells)).fits(grid) == piece.fits(grid),
{
    let marked = ghosted(piece.cells);
    if piece.fits(grid) {
        assert forall|i: int, j: int|
            in_square(i, j) && (#[trigger] layout_at(marked, i, j)) is Some implies !grid.taken(
            piece.x + i,
            piece.y + j,
        ) by {
            assert(layout_at(piece.cells, i, j) is Some);
        }
    }
    if piece.with_cells(marked).fits(grid) {
        assert forall|i: int, j: int|
            in_square(i, j) && (#[trigger] layout_at(piece.cells, i, j)) is Some implies !grid.taken(
            piece.x + i,
            piece.y + j,
        ) by {
            assert(layout_at(marked, i, j) is Some);
        }
    }
}

/// A piece with a cell falls exactly as far as it fits: every row on the
/// way down to its landing is free for it, and the row after is not.
pub proof fn descent_ends_at_rest(grid: Grid, piece: Piece)
    requires
        piece.cells.len() == 16,
        occupied(piece.cells),
    ensures
        0 <= descent(grid, piece),
        forall|k: int|
            1 <= k <= descent(grid, piece) ==> (#[trigger] piece.shifted(0, k)).fits(grid),
        !piece.shifted(0, descent(grid, piece) + 1).fits(grid),
    decreases grid.height() - piece.y,
{
    let lower = piece.shifted(0, 1);
    if lower.fits(grid) {
        lemma_fit_bounds(grid, lower);
        descent_ends_at_rest(grid, lower);
        assert forall|k: int| 1 <= k <= descent(grid, piece) implies (#[trigger] piece.shifted(
            0,
            k,
        )).fits(grid) by {
            if k > 1 {
                assert(piece.shifted(0, k) == lower.shifted(0, k - 1));
            }
        }
    }
}

/// After any tick the preview stands in the columns of the falling piece, on
/// or below its row, where it can fall no further: every row on the way down
/// is free for the piece, and under at least one cell of the preview lies a
/// cell of the stack or the floor.
pub proof fn ghost_rests_on_stack(game: Game, drawn: int)
    requires
        game.wf(),
    ensures
        ({
            let after = game.tick(drawn);
            let fall = after.shadow.y - after.player.y;
            &&& after.shadow.x == after.player.x
            &&& fall >= 0
            &&& forall|k: int|
                1 <= k <= fall ==> (#[trigger] after.player.shifted(0, k)).fits(after.board)
            &&& exists|i: int, j: int|
                in_square(i, j) && (#[trigger] layout_at(after.shadow.cells, i, j)) is Some
                    && after.board.taken(after.shadow.x + i, after.shadow.y + j + 1)
        }),
{
    let after = game.tick(drawn);
    let piece = after.player;
    descent_ends_at_rest(after.board, piece);
    let fall = descent(after.board, piece);
    let stuck = piece.shifted(0, fall + 1);
    let (i, j) = choose|i: int, j: int|
        in_square(i, j) && (#[trigger] layout_at(stuck.cells, i, j)) is Some && after.board.taken(
            stuck.x + i,
            stuck.y + j,
        );
    assert(layout_at(after.shadow.cells, i, j) is Some);
}

/// A tick without a forced fall awards the fourth power of the number of
/// full rows, as long as the score has room for it: nothing for no row, 1
/// for one, 16 for two, 81 for three and 256 for four.
pub proof fn tick_pays_for_cleared_rows(game: Game, drawn: int)
    requires
        game.timer % 60 != 0,
        game.score + clear_bonus(game.board.full_count()) <= u32::MAX,
    ensures
        game.tick(drawn).score == game.score + clear_bonus(game.board.full_count()),
        game.tick(drawn).board == game.board.compacted(),
        clear_bonus(0) == 0,
        clear_bonus(1) == 1,
        clear_bonus(2) == 16,
        clear_bonus(3) == 81,
        clear_bonus(4) == 256,
{
    assert(clear_bonus(0) == 0 && clear_bonus(1) == 1 && clear_bonus(2) == 16 && clear_bonus(3)
        == 81 && clear_bonus(4) == 256) by (nonlinear_arith);
}

/// Every game starts well-formed.
pub proof fn openings_are_well_formed(width: int, height: int, first: int, second: int)
    requires
        0 <= width <= i32::MAX,
        0 <= height <= i32::MAX,
    ensures
        opening(width, height, first, second).wf(),
{
    shapes_are_occupied(shape_index(first));
    shapes_are_occupied(shape_index(second));
}

/// Whatever the engine does to a game leaves it a game: a command or a
/// tick takes a well-formed game to a well-formed game, on a board of the
/// same size.
pub proof fn games_stay_well_formed(game: Game, drawn: int)
    requires
        game.wf(),
    ensures
        game.move_left().wf(),
        game.move_right().wf(),
        game.rotate_left().wf(),
        game.rotate_right().wf(),
        game.move_down(drawn).wf(),
        game.drop_block(drawn).wf(),
        game.swap_held(drawn).wf(),
        game.tick(drawn).wf(),
        game.tick(drawn).board.width == game.board.width,
        game.tick(drawn).board.height() == game.board.height(),
{
    shapes_are_occupied(shape_index(drawn));
    turns_keep_cells(game.player.cells);
    lemma_place_keeps(game, game.player.shifted(-1, 0));
    lemma_place_keeps(game, game.player.shifted(1, 0));
    lemma_place_keeps(game, game.player.with_cells(rotated_left(game.player.cells)));
    lemma_place_keeps(game, game.player.with_cells(rotated_right(game.player.cells)));
    if game.can_fall() {
        lemma_fit_bounds(game.board, game.player.shifted(0, 1));
    }
    match game.held {
        Some(cells) => {
            lemma_place_keeps(game, game.player.with_cells(cells));
        },
        None => {},
    }
    let fallen = game.gravity(drawn);
    compacting_keeps_the_size(fallen.board);
    assert(clear_bonus(fallen.board.full_count()) >= 0) by (nonlinear_arith);
}

/// A piece with a cell that fits on the row of the falling piece can take
/// its place.
proof fn lemma_place_keeps(game: Game, candidate: Piece)
    requires
        game.wf(),
        candidate.cells.len() == 16,
        occupied(candidate.cells),
        candidate.y == game.player.y,
    ensures
        game.place(candidate).wf(),
        candidate.fits(game.board) ==> (Game { player: candidate, ..game }).wf(),
{
    if candidate.fits(game.board) {
        lemma_fit_bounds(game.board, candidate);
    }
}

/// No command takes points away: after each of them the score is what it
/// was or more.
pub proof fn score_never_falls(game: Game, drawn: int)
    ensures
        game.move_left().score == game.score,
        game.move_right().score == game.score,
        game.rotate_left().score == game.score,
        game.rotate_right().score == game.score,
        game.swap_held(drawn).score == game.score,
        game.score <= u32::MAX ==> game.move_down(drawn).score >= game.score,
        game.score <= u32::MAX ==> game.drop_block(drawn).score >= game.score,
        game.score <= u32::MAX ==> game.tick(drawn).score >= game.score,
{
    let fallen = game.gravity(drawn);
    let cleared = fallen.board.full_count();
    assert(clear_bonus(cleared) >= 0) by (nonlinear_arith);
}

/// A swap with a shape that does not fit where the piece is goes nowhere: the
/// board, the falling piece, the shape set aside and the next shape stay as
/// they are, and so does everything else.
pub proof fn refused_swap_changes_nothing(game: Game, cells: Layout, drawn: int)
    requires
        game.held == Some(cells),
        !game.player.with_cells(cells).fits(game.board),
    ensures
        !game.can_swap(),
        game.swap_held(drawn) == game,
{
}

/// The game after `count` calls of `move_down` in a row.
pub open spec fn soft_drops(game: Game, count: nat, drawn: int) -> Game
    decreases count,
{
    if count == 0 {
        game
    } else {
        soft_drops(game, (count - 1) as nat, drawn).move_down(drawn)
    }
}

/// While the piece has room, calls of `move_down` only take it down, one row
/// each.
proof fn lemma_soft_drops(game: Game, count: nat, drawn: int)
    requires
        game.player.cells.len() == 16,
        occupied(game.player.cells),
        count <= descent(game.board, game.player),
    ensures
        soft_drops(game, count, drawn).board == game.board,
        soft_drops(game, count, drawn).player == game.player.shifted(0, count as int),
        soft_drops(game, count, drawn).next == game.next,
        soft_drops(game, count, drawn).held == game.held,
        descent(game.board, game.player) == count + descent(
            game.board,
            game.player.shifted(0, count as int),
        ),
    decreases count,
{
    if count > 0 {
        lemma_soft_drops(game, (count - 1) as nat, drawn);
    }
}

/// Calling `move_down` until it says no locks the piece where it last was:
/// as long as the piece has not fallen as far as it fits, the call moves it;
/// the call after that does not, and it leaves the board with the piece
/// written at its landing, the former next shape in play at the top in the
/// middle, and the drawn shape queued. A hard drop ends with the same board and
/// pieces.
pub proof fn soft_drops_end_in_a_lock(game: Game, drawn: int)
    requires
        game.player.cells.len() == 16,
        occupied(game.player.cells),
    ensures
        ({
            let fall = descent(game.board, game.player);
            let locked = soft_drops(game, (fall + 1) as nat, drawn);
            &&& forall|count: nat| count < fall ==> (#[trigger] soft_drops(game, count, drawn)).can_fall()
            &&& !soft_drops(game, fall as nat, drawn).can_fall()
            &&& locked.board == game.board.with_layout(
                game.player.x,
                game.player.y + fall,
                game.player.cells,
            )
            &&& locked.player == centered(game.next, game.board.width)
            &&& locked.next == shape(shape_index(drawn))
            &&& locked.held == game.held
            &&& locked.board == game.drop_block(drawn).board
            &&& locked.player == game.drop_block(drawn).player
            &&& locked.next == game.drop_block(drawn).next
        }),
{
    let fall = descent(game.board, game.player);
    descent_ends_at_rest(game.board, game.player);
    assert forall|count: nat| count < fall implies (#[trigger] soft_drops(
        game,
        count,
        drawn,
    )).can_fall() by {
        lemma_soft_drops(game, count, drawn);
    }
    lemma_soft_drops(game, fall as nat, drawn);
}

} // verus!
