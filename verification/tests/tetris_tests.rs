use tetris_core::board::Board;
use tetris_core::brick::Brick;
use tetris_core::cell::Cell;
use tetris_core::color::Color;
use tetris_core::command::{Command, Feedback};
use tetris_core::player::Player;
use tetris_core::randomizer::DummyRng;
use tetris_core::tetris::Tetris;
use tetris_core::traits::{HasSize, IterateDimensions, Randomizer};

const I: i32 = 0;
const O: i32 = 1;
const T: i32 = 2;
const L: i32 = 4;
const YELLOW: Option<Cell> = Some(Cell::Normal(Color(255, 255, 0)));
const CYAN: Option<Cell> = Some(Cell::Normal(Color(0, 255, 255)));

/// Yields the given indices over and over and counts the draws.
#[derive(Debug, Clone)]
struct Script {
    indices: Vec<i32>,
    drawn: usize,
}

impl Script {
    fn of(indices: &[i32]) -> Self {
        Script { indices: indices.to_vec(), drawn: 0 }
    }
}

impl Randomizer for Script {
    fn next(&mut self) -> i32 {
        let v = self.indices[self.drawn % self.indices.len()];
        self.drawn += 1;
        v
    }
}

fn board_cells(game: &Tetris<Script>) -> Vec<(i32, i32, Option<Cell>)> {
    let mut cells = Vec::new();
    for y in 0..game.height() {
        for x in 0..game.width() {
            cells.push((x, y, game.get_item(x, y)));
        }
    }
    cells
}

fn taken_places(game: &Tetris<Script>) -> Vec<(i32, i32)> {
    board_cells(game).iter().filter(|c| c.2.is_some()).map(|c| (c.0, c.1)).collect()
}

#[test]
fn new_game_draws_the_first_two_shapes() {
    let game = Tetris::new(10, 20, Script::of(&[T, L, I]));
    assert_eq!(game.size(), (10, 20));
    assert_eq!(game.player(), Player::with_brick_centered(Brick::t(), 10));
    assert_eq!(game.next(), Brick::l());
    assert_eq!(game.held(), None);
    assert_eq!(game.score(), 0);
    assert_eq!(game.step_timer(), 1);
    assert_eq!(game.ghost(), Player::default());
    assert!(taken_places(&game).is_empty());
}

#[test]
fn new_game_with_the_dummy_rng() {
    let game = Tetris::new(10, 20, DummyRng::with_seed(2));
    // 246 = 35 * 7 + 1, 30258 = 4322 * 7 + 4.
    assert_eq!(game.player(), Player::with_brick_centered(Brick::o(), 10));
    assert_eq!(game.next(), Brick::l());
}

#[test]
fn with_pieces_takes_the_shapes_as_given() {
    let game = Tetris::with_pieces(8, 12, -5, 13, Script::of(&[I]));
    assert_eq!(game.player(), Player::with_brick_centered(Brick::s(), 8));
    assert_eq!(game.next(), Brick::z());
    assert_eq!(game.size(), (8, 12));
    assert_eq!(game.score(), 0);
    assert_eq!(game.step_timer(), 1);
}

#[test]
fn move_left_and_right_go_through_on_free_places() {
    let mut game = Tetris::with_pieces(10, 20, O, T, Script::of(&[I]));
    assert!(game.move_left());
    assert_eq!(game.player().position(), (2, 0));
    assert!(game.move_right());
    assert!(game.move_right());
    assert_eq!(game.player().position(), (4, 0));
    assert_eq!(game.player().brick(), Brick::o());
    assert_eq!(game.score(), 0);
}

#[test]
fn move_left_is_refused_at_the_wall() {
    let mut game = Tetris::with_pieces(10, 20, O, T, Script::of(&[I]));
    for _ in 0..4 {
        assert!(game.move_left());
    }
    assert_eq!(game.player().position(), (-1, 0));
    let before = game.clone();
    assert!(!game.move_left());
    assert_eq!(game.player(), before.player());
    assert_eq!(game.step_timer(), before.step_timer());
    assert_eq!(game.score(), before.score());
    assert_eq!(board_cells(&game), board_cells(&before));
}

#[test]
fn move_right_is_refused_at_the_wall() {
    let mut game = Tetris::with_pieces(10, 20, O, T, Script::of(&[I]));
    for _ in 0..4 {
        assert!(game.move_right());
    }
    assert_eq!(game.player().position(), (7, 0));
    assert!(!game.move_right());
    assert_eq!(game.player().position(), (7, 0));
}

#[test]
fn moves_and_turns_take_two_ticks_off_the_timer() {
    let mut game = Tetris::with_pieces(10, 20, T, T, Script::of(&[I]));
    for _ in 0..9 {
        game.tick();
    }
    assert_eq!(game.step_timer(), 10);
    assert!(game.move_left());
    assert_eq!(game.step_timer(), 8);
    assert!(game.move_right());
    assert_eq!(game.step_timer(), 6);
    assert!(game.rotate_left());
    assert_eq!(game.step_timer(), 4);
    assert!(game.rotate_right());
    assert_eq!(game.step_timer(), 2);
    assert!(game.move_left());
    assert_eq!(game.step_timer(), 1);
    assert!(game.move_left());
    assert_eq!(game.step_timer(), 1);
}

#[test]
fn the_timer_is_floored_at_one_from_three() {
    let mut game = Tetris::with_pieces(10, 20, T, T, Script::of(&[I]));
    game.tick();
    game.tick();
    assert_eq!(game.step_timer(), 3);
    assert!(game.move_left());
    assert_eq!(game.step_timer(), 1);
}

#[test]
fn rotate_turns_the_piece_in_place() {
    let mut game = Tetris::with_pieces(10, 20, T, O, Script::of(&[I]));
    assert!(game.rotate_left());
    assert_eq!(game.player().position(), (3, 0));
    assert_eq!(game.player().brick(), Brick::t().rotate_left());
    assert!(game.rotate_right());
    assert_eq!(game.player().brick(), Brick::t());
    assert!(game.rotate_right());
    assert_eq!(game.player().brick(), Brick::t().rotate_right());
}

#[test]
fn rotate_is_refused_where_the_turned_piece_does_not_fit() {
    // Upright in column 0 of a board two columns wide, the I has no room to
    // lie down.
    let mut game = Tetris::with_pieces(2, 8, I, O, Script::of(&[I]));
    assert_eq!(game.player().position(), (-1, 0));
    assert!(game.rotate_left());
    assert_eq!(game.player().brick(), Brick::i().rotate_left());
    let before = game.clone();
    assert!(!game.rotate_left());
    assert!(!game.rotate_right());
    assert_eq!(game.player(), before.player());
    assert_eq!(game.step_timer(), before.step_timer());
}

#[test]
fn move_down_takes_the_piece_one_row_down_for_a_point() {
    let mut game = Tetris::with_pieces(10, 20, O, T, Script::of(&[I]));
    for _ in 0..5 {
        game.tick();
    }
    assert!(game.move_down());
    assert_eq!(game.player().position(), (3, 1));
    assert_eq!(game.score(), 1);
    assert_eq!(game.step_timer(), 1);
    assert_eq!(game.next(), Brick::t());
    assert!(taken_places(&game).is_empty());
}

#[test]
fn move_down_until_it_fails_locks_the_piece() {
    let mut game = Tetris::with_pieces(10, 6, O, T, Script::of(&[L, I]));
    let mut moves = 0;
    while game.move_down() {
        moves += 1;
        assert!(taken_places(&game).is_empty());
    }
    assert_eq!(moves, 3);
    assert_eq!(taken_places(&game), vec![(4, 4), (5, 4), (4, 5), (5, 5)]);
    assert_eq!(game.get_item(4, 4), YELLOW);
    assert_eq!(game.player(), Player::with_brick_centered(Brick::t(), 10));
    assert_eq!(game.next(), Brick::l());
    assert_eq!(game.score(), 3 + 2);
}

#[test]
fn a_lock_by_move_down_leaves_the_timer_alone() {
    let mut game = Tetris::with_pieces(10, 3, O, T, Script::of(&[L]));
    for _ in 0..7 {
        game.tick();
    }
    assert_eq!(game.step_timer(), 8);
    assert!(!game.move_down());
    assert_eq!(game.step_timer(), 8);
    assert_eq!(game.score(), 2);
    assert_eq!(taken_places(&game), vec![(4, 1), (5, 1), (4, 2), (5, 2)]);
}

#[test]
fn move_down_draws_only_when_the_piece_locks() {
    let mut game = Tetris::with_pieces(10, 6, O, T, Script::of(&[L, I]));
    assert!(game.move_down());
    assert!(game.move_down());
    assert_eq!(game.next(), Brick::t());
    assert!(game.move_down());
    assert!(!game.move_down());
    assert_eq!(game.next(), Brick::l());
    game.drop_block();
    assert_eq!(game.player().brick(), Brick::l());
    assert_eq!(game.next(), Brick::i());
}

#[test]
fn move_down_with_uses_the_index_it_is_given() {
    let mut game = Tetris::with_pieces(10, 3, O, T, Script::of(&[I]));
    assert!(!game.move_down_with(-3));
    assert_eq!(game.next(), Brick::j());
    assert_eq!(game.player().brick(), Brick::t());
    assert_eq!(game.score(), 2);
    let mut other = Tetris::with_pieces(10, 3, O, T, Script::of(&[I]));
    assert!(!other.move_down_with(5));
    assert_eq!(other.next(), Brick::s());
    let mut falling = Tetris::with_pieces(10, 6, O, T, Script::of(&[I]));
    assert!(falling.move_down_with(5));
    assert_eq!(falling.next(), Brick::t());
    assert_eq!(falling.player().position(), (3, 1));
    assert_eq!(falling.score(), 1);
}

#[test]
fn hard_drop_of_the_square_on_a_board_of_four_rows() {
    let mut game = Tetris::with_pieces(10, 4, O, L, Script::of(&[T]));
    assert_eq!(game.player().position(), (3, 0));
    game.drop_block();
    for y in 0..4 {
        for x in 0..10 {
            let inside = (4..=5).contains(&x) && (2..=3).contains(&y);
            assert_eq!(game.get_item(x, y), if inside { YELLOW } else { None });
        }
    }
    assert_eq!(game.score(), 1);
    assert_eq!(game.player(), Player::with_brick_centered(Brick::l(), 10));
    assert_eq!(game.player().position(), (3, 0));
    assert_eq!(game.next(), Brick::t());
    assert_eq!(game.step_timer(), 1);
}

#[test]
fn hard_drop_awards_one_point_whatever_the_height() {
    let mut low = Tetris::with_pieces(10, 4, O, L, Script::of(&[T]));
    let mut high = Tetris::with_pieces(10, 40, O, L, Script::of(&[T]));
    low.drop_block();
    high.drop_block();
    assert_eq!(low.score(), 1);
    assert_eq!(high.score(), 1);
    assert_eq!(taken_places(&high), vec![(4, 38), (5, 38), (4, 39), (5, 39)]);
}

#[test]
fn hard_drop_starts_the_timer_again() {
    let mut game = Tetris::with_pieces(10, 10, O, L, Script::of(&[T]));
    for _ in 0..20 {
        game.tick();
    }
    assert_eq!(game.step_timer(), 21);
    game.drop_block();
    assert_eq!(game.step_timer(), 1);
}

#[test]
fn hard_drop_lands_on_the_stack() {
    let mut game = Tetris::with_pieces(10, 8, O, O, Script::of(&[O]));
    game.drop_block();
    game.drop_block();
    assert_eq!(
        taken_places(&game),
        vec![(4, 4), (5, 4), (4, 5), (5, 5), (4, 6), (5, 6), (4, 7), (5, 7)]
    );
    assert_eq!(game.score(), 2);
}

#[test]
fn hard_drop_ends_where_soft_drops_end() {
    let mut soft = Tetris::with_pieces(10, 9, T, L, Script::of(&[O, I]));
    let mut hard = soft.clone();
    soft.rotate_left();
    hard.rotate_left();
    soft.move_right();
    hard.move_right();
    while soft.move_down() {}
    hard.drop_block();
    assert_eq!(board_cells(&soft), board_cells(&hard));
    assert_eq!(soft.player(), hard.player());
    assert_eq!(soft.next(), hard.next());
}

#[test]
fn hard_drop_on_a_full_board_locks_in_place() {
    let mut game = Tetris::with_pieces(10, 3, O, O, Script::of(&[O]));
    game.drop_block();
    game.drop_block();
    game.drop_block();
    assert_eq!(taken_places(&game), vec![(4, 1), (5, 1), (4, 2), (5, 2)]);
    assert_eq!(game.score(), 3);
    assert_eq!(game.player().position(), (3, 0));
}

#[test]
fn first_swap_sets_the_piece_aside() {
    let mut game = Tetris::with_pieces(10, 20, O, T, Script::of(&[L, I]));
    for _ in 0..5 {
        game.tick();
    }
    assert!(game.move_down());
    assert!(game.move_left());
    for _ in 0..6 {
        game.tick();
    }
    assert_eq!(game.step_timer(), 7);
    assert!(game.swap_held());
    assert_eq!(game.held(), Some(Brick::o()));
    assert_eq!(game.player(), Player::with_brick_centered(Brick::t(), 10));
    assert_eq!(game.next(), Brick::l());
    assert_eq!(game.step_timer(), 5);
    assert_eq!(game.score(), 1);
    assert!(taken_places(&game).is_empty());
}

#[test]
fn first_swap_floors_the_timer_at_one() {
    let mut game = Tetris::with_pieces(10, 20, O, T, Script::of(&[L]));
    assert_eq!(game.step_timer(), 1);
    assert!(game.swap_held());
    assert_eq!(game.step_timer(), 1);
    let mut other = Tetris::with_pieces(10, 20, O, T, Script::of(&[L]));
    other.tick();
    assert_eq!(other.step_timer(), 2);
    assert!(other.swap_held());
    assert_eq!(other.step_timer(), 1);
}

#[test]
fn later_swaps_exchange_the_shapes_in_place() {
    let mut game = Tetris::with_pieces(10, 20, O, T, Script::of(&[L, I]));
    assert!(game.swap_held());
    assert!(game.move_down());
    assert!(game.move_right());
    game.tick();
    game.tick();
    let timer = game.step_timer();
    assert!(game.swap_held());
    assert_eq!(game.player().position(), (4, 1));
    assert_eq!(game.player().brick(), Brick::o());
    assert_eq!(game.held(), Some(Brick::t()));
    assert_eq!(game.next(), Brick::l());
    assert_eq!(game.step_timer(), timer);
    assert!(game.swap_held());
    assert_eq!(game.player().brick(), Brick::t());
    assert_eq!(game.held(), Some(Brick::o()));
    assert_eq!(game.player().position(), (4, 1));
}

#[test]
fn a_swap_keeps_the_turn_of_the_held_shape() {
    let mut game = Tetris::with_pieces(10, 20, T, O, Script::of(&[L]));
    assert!(game.rotate_left());
    assert!(game.swap_held());
    assert_eq!(game.held(), Some(Brick::t().rotate_left()));
    assert!(game.swap_held());
    assert_eq!(game.player().brick(), Brick::t().rotate_left());
}

#[test]
fn a_swap_that_does_not_fit_changes_nothing() {
    let mut game = Tetris::with_pieces(4, 6, I, O, Script::of(&[L, T]));
    assert!(game.swap_held());
    assert_eq!(game.held(), Some(Brick::i()));
    assert_eq!(game.player().brick(), Brick::o());
    assert!(game.move_right());
    assert_eq!(game.player().position(), (1, 0));
    game.tick();
    let before = game.clone();
    assert!(!game.swap_held());
    assert_eq!(game.player(), before.player());
    assert_eq!(game.held(), Some(Brick::i()));
    assert_eq!(game.next(), before.next());
    assert_eq!(game.next(), Brick::l());
    assert_eq!(board_cells(&game), board_cells(&before));
    assert_eq!(game.score(), before.score());
    assert_eq!(game.step_timer(), before.step_timer());
    assert_eq!(game.ghost(), before.ghost());
}

#[test]
fn a_swap_is_refused_over_the_stack() {
    let mut game = Tetris::with_pieces(10, 4, O, I, Script::of(&[O, O]));
    game.drop_block();
    // The I lies in row 1; the stack fills rows 2 and 3 of columns 4 and 5.
    assert!(game.swap_held());
    assert_eq!(game.held(), Some(Brick::i()));
    assert_eq!(game.player().brick(), Brick::o());
    // The square at the top overlaps the stack in row 2: it cannot go back
    // for the I either way, but the I fits in row 1.
    assert!(game.swap_held());
    assert_eq!(game.player().brick(), Brick::i());
    assert_eq!(game.held(), Some(Brick::o()));
    // Now the square does not fit where the I lies.
    assert!(!game.swap_held());
    assert_eq!(game.player().brick(), Brick::i());
    assert_eq!(game.held(), Some(Brick::o()));
}

#[test]
fn swap_draws_only_when_nothing_is_held() {
    let mut game = Tetris::with_pieces(10, 20, O, T, Script::of(&[L, I]));
    assert!(game.swap_held());
    assert!(game.swap_held());
    assert!(game.swap_held());
    assert_eq!(game.next(), Brick::l());
    game.drop_block();
    assert_eq!(game.next(), Brick::i());
}

#[test]
fn tick_counts_the_timer() {
    let mut game = Tetris::with_pieces(10, 20, O, T, Script::of(&[I]));
    game.tick();
    assert_eq!(game.step_timer(), 2);
    game.tick();
    assert_eq!(game.step_timer(), 3);
    assert_eq!(game.score(), 0);
    assert_eq!(game.player().position(), (3, 0));
}

#[test]
fn tick_forces_a_fall_when_the_timer_is_a_multiple_of_sixty() {
    let mut game = Tetris::with_pieces(10, 20, O, T, Script::of(&[I]));
    for _ in 0..59 {
        game.tick();
        assert_eq!(game.player().position(), (3, 0));
    }
    assert_eq!(game.step_timer(), 60);
    assert_eq!(game.score(), 0);
    game.tick();
    assert_eq!(game.player().position(), (3, 1));
    assert_eq!(game.score(), 1);
    assert_eq!(game.step_timer(), 2);
}

#[test]
fn a_forced_fall_that_locks_keeps_counting() {
    let mut game = Tetris::with_pieces(10, 3, O, T, Script::of(&[L]));
    for _ in 0..59 {
        game.tick();
    }
    game.tick();
    assert_eq!(game.score(), 2);
    assert_eq!(game.step_timer(), 61);
    assert_eq!(taken_places(&game), vec![(4, 1), (5, 1), (4, 2), (5, 2)]);
    assert_eq!(game.player(), Player::with_brick_centered(Brick::t(), 10));
    assert_eq!(game.next(), Brick::l());
}

#[test]
fn tick_without_a_full_row_adds_nothing() {
    let mut game = Tetris::with_pieces(10, 8, O, O, Script::of(&[O]));
    game.drop_block();
    let score = game.score();
    let before = board_cells(&game);
    game.tick();
    assert_eq!(game.score(), score);
    assert_eq!(board_cells(&game), before);
}

#[test]
fn tick_pays_one_point_for_one_row() {
    let mut game = Tetris::with_pieces(4, 8, I, I, Script::of(&[I]));
    game.drop_block();
    assert_eq!(taken_places(&game), vec![(0, 7), (1, 7), (2, 7), (3, 7)]);
    assert_eq!(game.get_item(0, 7), CYAN);
    let score = game.score();
    game.tick();
    assert_eq!(game.score(), score + 1);
    assert!(taken_places(&game).is_empty());
}

#[test]
fn tick_pays_sixteen_points_for_two_rows() {
    let mut game = Tetris::with_pieces(4, 8, I, I, Script::of(&[I]));
    game.drop_block();
    game.drop_block();
    let score = game.score();
    assert_eq!(score, 2);
    game.tick();
    assert_eq!(game.score(), score + 16);
    assert!(taken_places(&game).is_empty());
}

#[test]
fn tick_pays_eighty_one_points_for_three_rows() {
    let mut game = Tetris::with_pieces(4, 8, I, I, Script::of(&[I]));
    for _ in 0..3 {
        game.drop_block();
    }
    let score = game.score();
    game.tick();
    assert_eq!(game.score(), score + 81);
    assert!(taken_places(&game).is_empty());
}

#[test]
fn tick_pays_two_hundred_and_fifty_six_points_for_four_rows() {
    let mut game = Tetris::with_pieces(4, 8, I, I, Script::of(&[I]));
    for _ in 0..4 {
        game.drop_block();
    }
    assert_eq!(taken_places(&game).len(), 16);
    let score = game.score();
    assert_eq!(score, 4);
    game.tick();
    assert_eq!(game.score(), score + 256);
    assert!(taken_places(&game).is_empty());
}

#[test]
fn tick_lets_the_stack_sink_after_a_clear() {
    let mut game = Tetris::with_pieces(4, 8, I, O, Script::of(&[I, I]));
    game.drop_block();
    // The square comes to rest on the full row.
    game.drop_block();
    assert_eq!(taken_places(&game).len(), 8);
    game.tick();
    assert_eq!(taken_places(&game), vec![(1, 6), (2, 6), (1, 7), (2, 7)]);
    assert_eq!(game.get_item(1, 7), YELLOW);
    assert_eq!(game.score(), 2 + 1);
}

#[test]
fn tick_finds_the_landing_preview() {
    let mut game = Tetris::with_pieces(10, 6, O, T, Script::of(&[I]));
    game.tick();
    let preview = game.ghost();
    assert_eq!(preview.position(), (3, 3));
    assert_eq!(preview.brick(), Brick::o().as_ghost());
    assert!(game.move_left());
    assert_eq!(game.ghost().position(), (3, 3));
    game.tick();
    assert_eq!(game.ghost().position(), (2, 3));
}

#[test]
fn the_preview_rests_on_the_stack() {
    let mut game = Tetris::with_pieces(10, 10, O, T, Script::of(&[I]));
    game.drop_block();
    game.tick();
    // The T has its lowest cell in column 4, over the square in rows 8 and 9.
    assert_eq!(game.player().brick(), Brick::t());
    assert_eq!(game.ghost().position(), (3, 5));
    assert_eq!(game.ghost().brick(), Brick::t().as_ghost());
    let lowered = game.ghost().move_down();
    assert_eq!(game.get_item(4, 8), YELLOW);
    assert!(lowered.get_item(1, 2).is_some());
    assert_eq!(lowered.position().1 + 2, 8);
}

#[test]
fn the_preview_of_a_piece_that_cannot_fall_lies_under_the_piece() {
    let mut game = Tetris::with_pieces(10, 3, O, T, Script::of(&[I]));
    game.tick();
    assert_eq!(game.ghost(), game.player().as_ghost());
    assert_eq!(game.ghost().position(), (3, 0));
    assert_eq!(game.ghost().brick(), Brick::o().as_ghost());
    assert_eq!(game.iter_dim()[1 * 10 + 4], (4, 1, YELLOW));
}

#[test]
fn the_enumeration_shows_piece_preview_and_stack() {
    let mut game = Tetris::with_pieces(10, 8, O, O, Script::of(&[T]));
    game.drop_block();
    game.tick();
    let items = game.iter_dim();
    assert_eq!(items.len(), 80);
    for (k, item) in items.iter().enumerate() {
        let x = (k % 10) as i32;
        let y = (k / 10) as i32;
        let in_columns = (4..=5).contains(&x);
        let expected = if in_columns && (1..=2).contains(&y) {
            YELLOW
        } else if in_columns && (4..=5).contains(&y) {
            Some(Cell::GhostMarker)
        } else if in_columns && (6..=7).contains(&y) {
            YELLOW
        } else {
            None
        };
        assert_eq!(*item, (x, y, expected));
    }
}

#[test]
fn the_enumeration_paints_the_piece_over_its_preview() {
    let mut game = Tetris::with_pieces(10, 4, O, O, Script::of(&[T]));
    game.tick();
    assert_eq!(game.ghost().position(), (3, 1));
    let items = game.iter_dim();
    assert_eq!(items[1 * 10 + 4], (4, 1, YELLOW));
    assert_eq!(items[2 * 10 + 4], (4, 2, YELLOW));
    assert_eq!(items[3 * 10 + 4], (4, 3, Some(Cell::GhostMarker)));
    assert_eq!(items[3 * 10 + 5], (5, 3, Some(Cell::GhostMarker)));
    assert_eq!(items[0], (0, 0, None));
}

#[test]
fn a_single_read_sees_the_stack_only() {
    let mut game = Tetris::with_pieces(10, 8, O, O, Script::of(&[T]));
    game.tick();
    assert_eq!(game.get_item(4, 1), None);
    assert_eq!(game.get_item(4, 6), None);
    game.drop_block();
    assert_eq!(game.get_item(4, 6), YELLOW);
    assert_eq!(game.get_item(4, 1), None);
}

#[test]
fn a_game_without_rows_locks_at_once() {
    let mut game = Tetris::with_pieces(10, 0, O, T, Script::of(&[I]));
    assert!(!game.move_down());
    assert_eq!(game.score(), 2);
    game.drop_block();
    game.tick();
    assert_eq!(game.score(), 3);
    assert_eq!(game.iter_dim().len(), 0);
}

#[test]
fn the_score_never_goes_down() {
    let mut game = Tetris::new(6, 12, DummyRng::with_seed(5));
    let mut last = game.score();
    for step in 0..600 {
        match step % 7 {
            0 => {
                game.move_left();
            }
            1 => {
                game.rotate_left();
            }
            2 => {
                game.move_down();
            }
            3 => {
                game.move_right();
            }
            4 => {
                game.swap_held();
            }
            5 => {
                game.drop_block();
            }
            _ => {
                game.rotate_right();
            }
        }
        game.tick();
        assert!(game.score() >= last);
        last = game.score();
        assert!(game.step_timer() >= 1);
    }
}

#[test]
fn a_cloned_game_goes_its_own_way() {
    let mut game = Tetris::with_pieces(10, 8, O, T, Script::of(&[L, I]));
    game.tick();
    let mut copy = game.clone();
    assert_eq!(copy.player(), game.player());
    assert_eq!(copy.ghost(), game.ghost());
    assert_eq!(copy.next(), game.next());
    assert_eq!(copy.step_timer(), game.step_timer());
    copy.drop_block();
    assert!(taken_places(&game).is_empty());
    assert_eq!(taken_places(&copy).len(), 4);
    game.drop_block();
    assert_eq!(game.next(), copy.next());
}

#[test]
fn the_dummy_rng_decides_the_shapes_to_come() {
    let mut game = Tetris::new(10, 20, DummyRng::with_seed(2));
    // The third value of the sequence is 3721734 = 531676 * 7 + 2.
    game.drop_block();
    assert_eq!(game.player().brick(), Brick::l());
    assert_eq!(game.next(), Brick::t());
    let mut again = Tetris::new(10, 20, DummyRng::with_seed(2));
    again.move_left();
    again.drop_block();
    assert_eq!(again.next(), Brick::t());
}

fn stack_of(game: &Tetris<DummyRng>) -> Board {
    let mut board = Board::new(game.width(), game.height());
    for y in 0..game.height() {
        for x in 0..game.width() {
            board.set_field((x, y), game.get_item(x, y));
        }
    }
    board
}

fn play(game: &mut Tetris<DummyRng>, step: usize) {
    match (step * 7 + step / 3) % 11 {
        0 | 1 => {
            game.move_left();
        }
        2 | 3 => {
            game.move_right();
        }
        4 => {
            game.rotate_left();
        }
        5 => {
            game.rotate_right();
        }
        6 | 7 => {
            game.move_down();
        }
        8 => {
            game.swap_held();
        }
        9 => {
            game.drop_block();
        }
        _ => {}
    }
}

#[test]
fn after_every_tick_the_preview_is_at_rest_under_the_piece() {
    let mut game = Tetris::new(8, 14, DummyRng::with_seed(11));
    for step in 0..400 {
        play(&mut game, step);
        game.tick();
        let board = stack_of(&game);
        let player = game.player();
        let preview = game.ghost();
        assert_eq!(preview.position().0, player.position().0);
        assert!(preview.position().1 >= player.position().1);
        assert_eq!(preview.brick(), player.brick().as_ghost());
        let mut lower = player;
        while lower.position().1 < preview.position().1 {
            lower = lower.move_down();
            assert!(lower.brick_fits(&board));
        }
        assert!(!preview.move_down().brick_fits(&board));
        let (px, py) = preview.position();
        let mut touches = false;
        for y in 0..4 {
            for x in 0..4 {
                if preview.get_item(x, y).is_some() && board.is_taken((px + x, py + y + 1)) {
                    touches = true;
                }
            }
        }
        assert!(touches);
    }
}

#[test]
fn the_enumeration_is_the_stack_under_preview_and_piece() {
    let mut game = Tetris::new(8, 14, DummyRng::with_seed(3));
    for step in 0..300 {
        play(&mut game, step);
        if step % 2 == 0 {
            game.tick();
        }
        let mut scene = stack_of(&game);
        scene.insert_brick(game.ghost().position(), game.ghost().brick());
        scene.insert_brick(game.player().position(), game.player().brick());
        assert_eq!(game.iter_dim(), scene.iter_dim());
    }
}

#[test]
fn no_full_row_is_left_after_a_tick() {
    let mut game = Tetris::new(4, 10, DummyRng::with_seed(7));
    let mut cleared_points = 0;
    for step in 0..500 {
        play(&mut game, step);
        let before = game.score();
        let timer = game.step_timer();
        let full = (0..game.height()).filter(|y| stack_of(&game).line_full(*y)).count() as u32;
        game.tick();
        if timer % 60 != 0 {
            assert_eq!(game.score(), before + full * full * full * full);
            cleared_points += full * full * full * full;
        }
        let board = stack_of(&game);
        for y in 0..game.height() {
            assert!(!board.line_full(y));
        }
    }
    assert!(cleared_points > 0);
}

#[test]
fn the_falling_piece_always_has_four_cells() {
    let mut game = Tetris::new(6, 9, DummyRng::with_seed(-4));
    for step in 0..300 {
        play(&mut game, step);
        game.tick();
        let cells = game.player().iter_dim().iter().filter(|c| c.2.is_some()).count();
        assert_eq!(cells, 4);
        let (x, y) = game.player().position();
        assert!(-4 < x && x < 6);
        assert!(0 <= y && y < 9);
    }
}

#[test]
fn a_command_does_what_its_method_does() {
    let commands = [
        Command::MoveLeft,
        Command::RotateLeft,
        Command::MoveDown,
        Command::SwapHeld,
        Command::MoveRight,
        Command::RotateRight,
        Command::DropBlock,
    ];
    let mut by_command = Tetris::new(7, 12, DummyRng::with_seed(19));
    let mut by_method = by_command.clone();
    for step in 0..350 {
        let command = commands[(step * 3 + step / 5) % commands.len()];
        let feedback = by_command.command(command);
        let expected = match command {
            Command::MoveLeft => {
                if by_method.move_left() {
                    Feedback::Silent
                } else {
                    Feedback::Refused
                }
            }
            Command::MoveRight => {
                if by_method.move_right() {
                    Feedback::Silent
                } else {
                    Feedback::Refused
                }
            }
            Command::RotateLeft => {
                if by_method.rotate_left() {
                    Feedback::Turned
                } else {
                    Feedback::Refused
                }
            }
            Command::RotateRight => {
                if by_method.rotate_right() {
                    Feedback::Turned
                } else {
                    Feedback::Refused
                }
            }
            Command::MoveDown => {
                by_method.move_down();
                Feedback::Silent
            }
            Command::DropBlock => {
                by_method.drop_block();
                Feedback::Silent
            }
            Command::SwapHeld => {
                by_method.swap_held();
                Feedback::Silent
            }
        };
        assert_eq!(feedback, expected);
        by_command.tick();
        by_method.tick();
        assert_eq!(by_command.iter_dim(), by_method.iter_dim());
        assert_eq!(by_command.player(), by_method.player());
        assert_eq!(by_command.next(), by_method.next());
        assert_eq!(by_command.held(), by_method.held());
        assert_eq!(by_command.score(), by_method.score());
        assert_eq!(by_command.step_timer(), by_method.step_timer());
    }
}

#[test]
fn feedback_of_moves_and_turns() {
    let mut game = Tetris::with_pieces(2, 8, I, O, Script::of(&[I]));
    assert_eq!(game.command(Command::RotateLeft), Feedback::Turned);
    assert_eq!(game.command(Command::RotateLeft), Feedback::Refused);
    assert_eq!(game.command(Command::RotateRight), Feedback::Refused);
    assert_eq!(game.command(Command::MoveLeft), Feedback::Refused);
    assert_eq!(game.command(Command::MoveRight), Feedback::Silent);
    assert_eq!(game.command(Command::MoveRight), Feedback::Refused);
    assert_eq!(game.command(Command::MoveDown), Feedback::Silent);
    assert_eq!(game.command(Command::SwapHeld), Feedback::Silent);
    assert_eq!(game.command(Command::DropBlock), Feedback::Silent);
    assert_eq!(game.score(), 2);
}

#[test]
fn restart_seeds_the_source_with_the_score() {
    let mut game = Tetris::new(10, 6, DummyRng::with_seed(2));
    game.drop_block();
    game.drop_block();
    game.tick();
    assert_eq!(game.score(), 2);
    game.restart();
    // 2 * 123 = 246 selects the square, 246 * 123 = 30258 the L.
    assert_eq!(game.size(), (10, 6));
    assert_eq!(game.score(), 0);
    assert_eq!(game.step_timer(), 1);
    assert_eq!(game.held(), None);
    assert_eq!(game.player(), Player::with_brick_centered(Brick::o(), 10));
    assert_eq!(game.next(), Brick::l());
    assert_eq!(game.ghost(), Player::default());
    assert_eq!(game.iter_dim().iter().filter(|c| c.2.is_some()).count(), 4);
    game.drop_block();
    assert_eq!(game.next(), Brick::t());
}

#[test]
fn restart_of_a_fresh_game_starts_from_zero() {
    let mut game = Tetris::new(10, 6, DummyRng::with_seed(2));
    game.restart();
    assert_eq!(game.player().brick(), Brick::i());
    assert_eq!(game.next(), Brick::i());
}
