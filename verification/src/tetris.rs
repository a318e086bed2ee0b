//! The engine: a game in progress and the commands that drive it.

use vstd::prelude::*;
use crate::board::Board;
use crate::brick::{
    ghosted, occupied, preview_keeps_cells, rotated_left, rotated_right, shape_index,
    shapes_are_occupied, turns_keep_cells, Brick,
};
use crate::cell::Cell;
use crate::command::{Command, Feedback};
use crate::game::{
    clear_bonus, descent, gain, hurried, lemma_fit_bounds, lemma_preview_fits, opening, Game,
    EXTRA_FRAMES, FRAMES_PER_FALL,
};
use crate::player::{lemma_piece_len, Player};
use crate::randomizer::{dummy_step, DummyRng};
use crate::traits::{drawn_from, HasSize, IterateDimensions, Randomizer};

verus! {

/// A game in progress: the board, the falling piece and its preview, the
/// queue of one, the shape set aside, the timer, the score, and the source of
/// the shapes to come.
#[derive(Debug)]
pub struct Tetris<R> {
    board: Board,
    player: Player,
    shadow: Player,
    next_player: Brick,
    held: Option<Brick>,
    step_timer: u32,
    score: u32,
    randomizer: R,
}

impl<R> View for Tetris<R> {
    type V = Game;

    closed spec fn view(&self) -> Game {
        Game {
            board: self.board@,
            player: self.player@,
            shadow: self.shadow@,
            next: self.next_player@,
            held: match self.held {
                Some(brick) => Some(brick@),
                None => None,
            },
            timer: self.step_timer as int,
            score: self.score as int,
        }
    }
}

/// The timer after a move or a turn.
fn hurry(timer: u32) -> (less: u32)
    ensures
        less == hurried(timer as int),
{
    let less = timer.saturating_sub(EXTRA_FRAMES);
    if less < 1 {
        1
    } else {
        less
    }
}

/// The score after `points` are awarded.
fn award(score: u32, points: u32) -> (more: u32)
    ensures
        more == gain(score as int, points as int),
{
    score.saturating_add(points)
}

/// The score after `cleared` rows are paid for.
fn award_clear(score: u32, cleared: u32) -> (more: u32)
    ensures
        more == gain(score as int, clear_bonus(cleared as int)),
{
    if cleared >= 256 {
        assert(clear_bonus(cleared as int) >= 0x1_0000_0000) by (nonlinear_arith)
            requires
                cleared >= 256,
        ;
        u32::MAX
    } else {
        let c = cleared as u64;
        assert(c * c <= 255 * 255 && c * c * c <= 255 * 255 * 255 && c * c * c * c <= 255 * 255
            * 255 * 255) by (nonlinear_arith)
            requires
                0 <= c <= 255,
        ;
        let bonus = c * c * c * c;
        let sum = score as u64 + bonus;
        if sum >= u32::MAX as u64 {
            u32::MAX
        } else {
            sum as u32
        }
    }
}

impl<R> Tetris<R> {
    /// What every game that the engine reaches has in common; the commands
    /// ask for it and keep it.
    pub open spec fn wf(&self) -> bool {
        self@.wf()
    }

    /// The source of the shapes to come.
    pub closed spec fn source(&self) -> R {
        self.randomizer
    }

    /// The shape that falls next.
    pub fn next(&self) -> (brick: Brick)
        ensures
            brick@ == self@.next,
    {
        self.next_player
    }

    /// The shape set aside, if any.
    pub fn held(&self) -> (held: Option<Brick>)
        ensures
            held matches Some(brick) ==> self@.held == Some(brick@),
            held is None ==> self@.held is None,
    {
        self.held
    }

    pub fn score(&self) -> (score: u32)
        ensures
            score == self@.score,
    {
        self.score
    }

    /// The falling piece.
    pub fn player(&self) -> (player: Player)
        ensures
            player@ == self@.player,
    {
        self.player
    }

    /// The landing preview, as of the last tick.
    pub fn ghost(&self) -> (preview: Player)
        ensures
            preview@ == self@.shadow,
    {
        self.shadow
    }

    /// Ticks counted toward the next forced fall.
    pub fn step_timer(&self) -> (timer: u32)
        ensures
            timer == self@.timer,
    {
        self.step_timer
    }

    /// Replaces the falling piece by `candidate` if that fits.
    fn place(&mut self, candidate: Player) -> (placed: bool)
        requires
            old(self).wf(),
            occupied(candidate@.cells),
            candidate@.y == old(self)@.player.y,
        ensures
            final(self).wf(),
            final(self).source() == old(self).source(),
            placed == candidate@.fits(old(self)@.board),
            final(self)@ == old(self)@.place(candidate@),
    {
        proof {
            lemma_piece_len(candidate);
        }
        if candidate.brick_fits(&self.board) {
            proof {
                lemma_fit_bounds(self@.board, candidate@);
            }
            self.player = candidate;
            self.step_timer = hurry(self.step_timer);
            true
        } else {
            false
        }
    }

    /// One column to the left, if the piece fits there; a move that goes
    /// through hurries the timer. Says whether the piece moved.
    pub fn move_left(&mut self) -> (moved: bool)
        requires
            old(self).wf(),
        ensures
            final(self).wf(),
            final(self).source() == old(self).source(),
            moved == old(self)@.player.shifted(-1, 0).fits(old(self)@.board),
            final(self)@ == old(self)@.move_left(),
    {
        let moved = self.player.move_left();
        self.place(moved)
    }

    /// One column to the right, if the piece fits there; a move that goes
    /// through hurries the timer. Says whether the piece moved.
    pub fn move_right(&mut self) -> (moved: bool)
        requires
            old(self).wf(),
        ensures
            final(self).wf(),
            final(self).source() == old(self).source(),
            moved == old(self)@.player.shifted(1, 0).fits(old(self)@.board),
            final(self)@ == old(self)@.move_right(),
    {
        let moved = self.player.move_right();
        self.place(moved)
    }

    /// A quarter turn to the left, if the turned piece fits where it is; no
    /// other place is tried. Says whether the piece turned.
    pub fn rotate_left(&mut self) -> (turned: bool)
        requires
            old(self).wf(),
        ensures
            final(self).wf(),
            final(self).source() == old(self).source(),
            turned == old(self)@.player.with_cells(rotated_left(old(self)@.player.cells)).fits(
                old(self)@.board,
            ),
            final(self)@ == old(self)@.rotate_left(),
    {
        let moved = self.player.rotate_left();
        proof {
            turns_keep_cells(self@.player.cells);
        }
        self.place(moved)
    }

    /// A quarter turn to the right, if the turned piece fits where it is; no
    /// other place is tried. Says whether the piece turned.
    pub fn rotate_right(&mut self) -> (turned: bool)
        requires
            old(self).wf(),
        ensures
            final(self).wf(),
            final(self).source() == old(self).source(),
            turned == old(self)@.player.with_cells(rotated_right(old(self)@.player.cells)).fits(
                old(self)@.board,
            ),
            final(self)@ == old(self)@.rotate_right(),
    {
        let moved = self.player.rotate_right();
        proof {
            turns_keep_cells(self@.player.cells);
        }
        self.place(moved)
    }

    /// Whether the falling piece has room one row lower.
    fn can_fall(&self) -> (room: bool)
        requires
            self.wf(),
        ensures
            room == self@.can_fall(),
    {
        self.player.move_down().brick_fits(&self.board)
    }

    /// Brings the next shape into play and queues the shape that `drawn`
    /// selects.
    fn respawn(&mut self, drawn: i32)
        requires
            old(self).wf(),
        ensures
            final(self).wf(),
            final(self).source() == old(self).source(),
            final(self)@ == old(self)@.respawn(drawn as int),
    {
        self.player = Player::with_brick_centered(self.next_player, self.board.width());
        self.next_player = Brick::by_index(drawn);
        proof {
            shapes_are_occupied(shape_index(drawn as int));
        }
    }

    /// Writes `resting` into the board and brings the next shape into play.
    fn lock(&mut self, resting: Player, drawn: i32)
        requires
            old(self).wf(),
        ensures
            final(self).wf(),
            final(self).source() == old(self).source(),
            final(self)@ == old(self)@.lock(resting@, drawn as int),
    {
        self.board.insert_brick(resting.position(), resting.brick());
        self.respawn(drawn);
    }

    /// `move_down` for a game whose source would yield `drawn`: one row down
    /// for 1 point if there is room; otherwise the piece locks where it is, the
    /// next shape comes into play, the shape that `drawn` selects is queued, and
    /// 2 points are awarded. Says whether the piece moved.
    pub fn move_down_with(&mut self, drawn: i32) -> (moved: bool)
        requires
            old(self).wf(),
        ensures
            final(self).wf(),
            final(self).source() == old(self).source(),
            moved == old(self)@.can_fall(),
            final(self)@ == old(self)@.move_down(drawn as int),
    {
        let lower = self.player.move_down();
        if lower.brick_fits(&self.board) {
            proof {
                lemma_fit_bounds(self@.board, lower@);
            }
            self.player = lower;
            self.step_timer = 1;
            self.score = award(self.score, 1);
            true
        } else {
            let resting = self.player;
            self.lock(resting, drawn);
            self.score = award(self.score, 2);
            false
        }
    }

    /// `drop_block` for a game whose source would yield `drawn`: the piece
    /// falls as far as it fits and locks there, the next shape comes into
    /// play, the shape that `drawn` selects is queued, the timer starts again
    /// and 1 point is awarded, however far the piece fell.
    pub fn drop_block_with(&mut self, drawn: i32)
        requires
            old(self).wf(),
        ensures
            final(self).wf(),
            final(self).source() == old(self).source(),
            final(self)@ == old(self)@.drop_block(drawn as int),
    {
        let mut dropped = self.player;
        loop
            invariant
                *self == *old(self),
                self.wf(),
                dropped@.x == self@.player.x,
                dropped@.cells == self@.player.cells,
                self@.player.y <= dropped@.y,
                dropped@.y == 0 || dropped@.y < self@.board.height(),
                descent(self@.board, self@.player) == (dropped@.y - self@.player.y) + descent(
                    self@.board,
                    dropped@,
                ),
            ensures
                descent(self@.board, dropped@) == 0,
            decreases self@.board.height() - dropped@.y,
        {
            let lower = dropped.move_down();
            if lower.brick_fits(&self.board) {
                proof {
                    lemma_fit_bounds(self@.board, lower@);
                }
                dropped = lower;
            } else {
                break ;
            }
        }
        self.lock(dropped, drawn);
        self.step_timer = 1;
        self.score = award(self.score, 1);
    }

    /// `swap_held` for a game whose source would yield `drawn`. With a shape
    /// set aside: it changes places with the falling shape if it fits where the
    /// piece is, and nothing changes if it does not. With nothing set aside:
    /// the falling shape is set aside, the next shape comes into play, the shape
    /// that `drawn` selects is queued and the timer is hurried. Says whether
    /// anything changed.
    pub fn swap_held_with(&mut self, drawn: i32) -> (swapped: bool)
        requires
            old(self).wf(),
        ensures
            final(self).wf(),
            final(self).source() == old(self).source(),
            swapped == old(self)@.can_swap(),
            final(self)@ == old(self)@.swap_held(drawn as int),
    {
        match self.held {
            Some(h) => {
                let changed = self.player.set_brick(h);
                if self.board.brick_fits(changed.position(), changed.brick()) {
                    let current = self.player.brick();
                    self.held = Some(current);
                    self.player = changed;
                    true
                } else {
                    false
                }
            },
            None => {
                self.held = Some(self.player.brick());
                self.respawn(drawn);
                self.step_timer = hurry(self.step_timer);
                true
            },
        }
    }

    /// Clears the full rows and pays for them, finds the landing preview
    /// again and counts one tick.
    fn settle(&mut self)
        requires
            old(self).wf(),
        ensures
            final(self).wf(),
            final(self).source() == old(self).source(),
            final(self)@ == old(self)@.settle(),
    {
        let removed = self.board.clean_drop();
        self.score = award_clear(self.score, removed);
        let ghost settled = *self;
        let mut preview = self.player.as_ghost();
        loop
            invariant
                *self == settled,
                self.wf(),
                self@.player.cells.len() == 16,
                preview@.x == self@.player.x,
                self@.player.y <= preview@.y,
                preview@.y == 0 || preview@.y < self@.board.height(),
                preview@.cells == ghosted(self@.player.cells),
                descent(self@.board, self@.player) == (preview@.y - self@.player.y) + descent(
                    self@.board,
                    self@.player.shifted(0, preview@.y - self@.player.y),
                ),
            ensures
                descent(self@.board, self@.player.shifted(0, preview@.y - self@.player.y)) == 0,
            decreases self@.board.height() - preview@.y,
        {
            let lower = preview.move_down();
            proof {
                let plain = self@.player.shifted(0, preview@.y - self@.player.y);
                lemma_preview_fits(self@.board, plain.shifted(0, 1));
                preview_keeps_cells(self@.player.cells);
            }
            if lower.brick_fits(&self.board) {
                proof {
                    lemma_fit_bounds(self@.board, lower@);
                }
                preview = lower;
            } else {
                break ;
            }
        }
        self.shadow = preview;
        self.step_timer = self.step_timer.wrapping_add(1);
    }

    /// `tick` for a game whose source would yield `drawn`: when the timer is a
    /// multiple of 60 the piece is moved down as by `move_down_with`; then
    /// every full row is cleared, the score grows by the fourth power of their
    /// number, the landing preview is found again and the timer counts one
    /// tick.
    pub fn tick_with(&mut self, drawn: i32)
        requires
            old(self).wf(),
        ensures
            final(self).wf(),
            final(self).source() == old(self).source(),
            final(self)@ == old(self)@.tick(drawn as int),
    {
        if self.step_timer % FRAMES_PER_FALL == 0 {
            self.move_down_with(drawn);
        }
        self.settle();
    }

    /// The game on an empty board of `w` columns and `h` rows in which the
    /// shape that `first` selects falls and the shape that `second` selects
    /// comes next.
    pub fn with_pieces(w: i32, h: i32, first: i32, second: i32, randomizer: R) -> (game: Self)
        requires
            0 <= w,
            0 <= h,
        ensures
            game.wf(),
            game@ == opening(w as int, h as int, first as int, second as int),
            game.source() == randomizer,
    {
        proof {
            shapes_are_occupied(shape_index(first as int));
            shapes_are_occupied(shape_index(second as int));
        }
        let shadow = Player::default();
        Self {
            board: Board::new(w, h),
            player: Player::with_brick_centered_rand(w, first),
            shadow,
            next_player: Brick::by_index(second),
            held: None,
            step_timer: 1,
            score: 0,
            randomizer,
        }
    }
}

impl<R: Randomizer> Tetris<R> {
    /// A new game on an empty board of `w` columns and `h` rows. The source
    /// yields the shape that falls first, then the shape that comes next.
    pub fn new(w: i32, h: i32, randomizer: R) -> (game: Self)
        requires
            0 <= w,
            0 <= h,
        ensures
            game.wf(),
            exists|first: i32, second: i32, between: R|
                game@ == #[trigger] opening(w as int, h as int, first as int, second as int)
                    && #[trigger] drawn_from(randomizer, first, between) && drawn_from(
                    between,
                    second,
                    game.source(),
                ),
    {
        let mut randomizer = randomizer;
        let ghost start = randomizer;
        let first = randomizer.next();
        let ghost between = randomizer;
        let second = randomizer.next();
        let game = Self::with_pieces(w, h, first, second, randomizer);
        proof {
            assert(game@ == opening(w as int, h as int, first as int, second as int)
                && drawn_from(start, first, between) && drawn_from(
                between,
                second,
                game.source(),
            ));
        }
        game
    }

    /// Takes the next index from the source.
    fn draw(&mut self) -> (drawn: i32)
        ensures
            final(self)@ == old(self)@,
            drawn_from(old(self).source(), drawn, final(self).source()),
    {
        self.randomizer.next()
    }

    /// One row down for 1 point if there is room. Otherwise the piece locks
    /// where it is, the next shape comes into play, a new one is drawn from
    /// the source and 2 points are awarded. Says whether the piece moved.
    pub fn move_down(&mut self) -> (moved: bool)
        requires
            old(self).wf(),
        ensures
            final(self).wf(),
            moved == old(self)@.can_fall(),
            exists|drawn: i32|
                final(self)@ == #[trigger] old(self)@.move_down(drawn as int) && source_after(
                    old(self).source(),
                    final(self).source(),
                    !old(self)@.can_fall(),
                    drawn,
                ),
    {
        let drawn = if self.can_fall() {
            0
        } else {
            self.draw()
        };
        let moved = self.move_down_with(drawn);
        moved
    }

    /// The piece falls as far as it fits and locks there; the next shape
    /// comes into play and a new one is drawn from the source. The timer starts
    /// again and 1 point is awarded.
    pub fn drop_block(&mut self)
        requires
            old(self).wf(),
        ensures
            final(self).wf(),
            exists|drawn: i32|
                final(self)@ == #[trigger] old(self)@.drop_block(drawn as int) && source_after(
                    old(self).source(),
                    final(self).source(),
                    true,
                    drawn,
                ),
    {
        let drawn = self.draw();
        self.drop_block_with(drawn);
    }

    /// Swaps the falling shape with the shape set aside, if that fits where
    /// the piece is; a swap that does not fit changes nothing. With nothing set
    /// aside, the falling shape is set aside, the next shape comes into play
    /// and a new one is drawn from the source. Says whether anything changed.
    pub fn swap_held(&mut self) -> (swapped: bool)
        requires
            old(self).wf(),
        ensures
            final(self).wf(),
            swapped == old(self)@.can_swap(),
            exists|drawn: i32|
                final(self)@ == #[trigger] old(self)@.swap_held(drawn as int) && source_after(
                    old(self).source(),
                    final(self).source(),
                    old(self)@.held is None,
                    drawn,
                ),
    {
        let drawn = if self.held.is_none() {
            self.draw()
        } else {
            0
        };
        let swapped = self.swap_held_with(drawn);
        swapped
    }

    /// One frame. When the timer is a multiple of 60 the piece is moved down
    /// as by `move_down`. Then every full row is cleared, the score grows by
    /// the fourth power of their number, the landing preview is found again and
    /// the timer counts one tick.
    pub fn tick(&mut self)
        requires
            old(self).wf(),
        ensures
            final(self).wf(),
            exists|drawn: i32|
                final(self)@ == #[trigger] old(self)@.tick(drawn as int) && source_after(
                    old(self).source(),
                    final(self).source(),
                    old(self)@.timer % 60 == 0 && !old(self)@.can_fall(),
                    drawn,
                ),
    {
        let drawn = if self.step_timer % FRAMES_PER_FALL == 0 && !self.can_fall() {
            self.draw()
        } else {
            0
        };
        self.tick_with(drawn);
    }
}

impl<R: Randomizer> Tetris<R> {
    /// Carries out a command and says what the player should hear of it: of
    /// a turn, whether it was made; of a move to the side, only that it was
    /// refused; of the other commands, nothing.
    pub fn command(&mut self, command: Command) -> (feedback: Feedback)
        requires
            old(self).wf(),
        ensures
            final(self).wf(),
            feedback == old(self)@.feedback(command),
            exists|drawn: i32|
                final(self)@ == #[trigger] old(self)@.command(command, drawn as int)
                    && source_after(
                    old(self).source(),
                    final(self).source(),
                    old(self)@.draws(command),
                    drawn,
                ),
    {
        let ghost quiet: i32 = 0;
        match command {
            Command::MoveLeft => {
                let moved = self.move_left();
                proof {
                    assert(final(self)@ == old(self)@.command(command, quiet as int));
                }
                if moved {
                    Feedback::Silent
                } else {
                    Feedback::Refused
                }
            },
            Command::MoveRight => {
                let moved = self.move_right();
                proof {
                    assert(final(self)@ == old(self)@.command(command, quiet as int));
                }
                if moved {
                    Feedback::Silent
                } else {
                    Feedback::Refused
                }
            },
            Command::MoveDown => {
                self.move_down();
                proof {
                    let drawn = choose|drawn: i32|
                        final(self)@ == #[trigger] old(self)@.move_down(drawn as int)
                            && source_after(
                            old(self).source(),
                            final(self).source(),
                            !old(self)@.can_fall(),
                            drawn,
                        );
                    assert(final(self)@ == old(self)@.command(command, drawn as int));
                }
                Feedback::Silent
            },
            Command::RotateLeft => {
                let turned = self.rotate_left();
                proof {
                    assert(final(self)@ == old(self)@.command(command, quiet as int));
                }
                if turned {
                    Feedback::Turned
                } else {
                    Feedback::Refused
                }
            },
            Command::RotateRight => {
                let turned = self.rotate_right();
                proof {
                    assert(final(self)@ == old(self)@.command(command, quiet as int));
                }
                if turned {
                    Feedback::Turned
                } else {
                    Feedback::Refused
                }
            },
            Command::DropBlock => {
                self.drop_block();
                proof {
                    let drawn = choose|drawn: i32|
                        final(self)@ == #[trigger] old(self)@.drop_block(drawn as int)
                            && source_after(
                            old(self).source(),
                            final(self).source(),
                            true,
                            drawn,
                        );
                    assert(final(self)@ == old(self)@.command(command, drawn as int));
                }
                Feedback::Silent
            },
            Command::SwapHeld => {
                self.swap_held();
                proof {
                    let drawn = choose|drawn: i32|
                        final(self)@ == #[trigger] old(self)@.swap_held(drawn as int)
                            && source_after(
                            old(self).source(),
                            final(self).source(),
                            old(self)@.held is None,
                            drawn,
                        );
                    assert(final(self)@ == old(self)@.command(command, drawn as int));
                }
                Feedback::Silent
            },
        }
    }
}

/// The seed that a score makes: the score itself, wrapped to 32 bits with a
/// sign.
pub open spec fn seed_of(score: int) -> i32 {
    if score <= i32::MAX {
        score as i32
    } else {
        (score - 0x1_0000_0000) as i32
    }
}

impl Tetris<DummyRng> {
    /// Starts over on a blank board of the same size, with a source that the
    /// score reached so far seeds.
    pub fn restart(&mut self)
        requires
            old(self).wf(),
        ensures
            final(self).wf(),
            final(self)@ == opening(
                old(self)@.board.width,
                old(self)@.board.height(),
                dummy_step(seed_of(old(self)@.score)) as int,
                dummy_step(dummy_step(seed_of(old(self)@.score))) as int,
            ),
            final(self).source().state() == dummy_step(dummy_step(seed_of(old(self)@.score))),
    {
        let score = self.score;
        let seed: i32 = if score <= 0x7fff_ffff {
            score as i32
        } else {
            (score as i64 - 0x1_0000_0000) as i32
        };
        let mut source = DummyRng::with_seed(seed);
        let first = source.next();
        let second = source.next();
        *self = Self::with_pieces(self.board.width(), self.board.height(), first, second, source);
    }
}

/// What a command leaves of the source of shapes: the source as it was, unless
/// the command `drew` from it, and then `drawn` is what came out.
pub open spec fn source_after<R: Randomizer>(before: R, after: R, drew: bool, drawn: i32) -> bool {
    if drew {
        drawn_from(before, drawn, after)
    } else {
        after == before
    }
}

impl<R: Clone> Clone for Tetris<R> {
    /// A second game in the same state, with a copy of the source.
    fn clone(&self) -> (copy: Self)
        ensures
            copy@ == self@,
    {
        Self {
            board: self.board.clone(),
            player: self.player,
            shadow: self.shadow,
            next_player: self.next_player,
            held: self.held,
            step_timer: self.step_timer,
            score: self.score,
            randomizer: self.randomizer.clone(),
        }
    }
}

impl<R> HasSize for Tetris<R> {
    open spec fn spec_width(&self) -> int {
        self@.board.width
    }

    open spec fn spec_height(&self) -> int {
        self@.board.height()
    }

    fn width(&self) -> (w: i32) {
        self.board.width()
    }

    fn height(&self) -> (h: i32) {
        self.board.height()
    }
}

impl<R> IterateDimensions for Tetris<R> {
    type Output = Option<Cell>;

    /// A single read sees the cells at rest only.
    open spec fn spec_item(&self, x: int, y: int) -> Option<Cell> {
        self@.board.at(x, y)
    }

    /// The enumeration shows the falling piece over the preview over the cells
    /// at rest.
    open spec fn spec_shown(&self, x: int, y: int) -> Option<Cell> {
        self@.scene().at(x, y)
    }

    fn get_item(&self, x: i32, y: i32) -> (item: Option<Cell>) {
        self.board.get_item(x, y)
    }

    fn iter_dim(&self) -> (items: Vec<(i32, i32, Option<Cell>)>) {
        let mut board = self.board.clone();
        board.insert_brick(self.shadow.position(), self.shadow.brick());
        board.insert_brick(self.player.position(), self.player.brick());
        board.iter_dim()
    }
}

} // verus!
