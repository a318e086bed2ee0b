use tetris_core::board::Board;
use tetris_core::brick::Brick;
use tetris_core::cell::Cell;
use tetris_core::color::Color;
use tetris_core::config::Config;
use tetris_core::player::Player;
use tetris_core::traits::{HasSize, IterateDimensions};

#[test]
fn centered_on_a_board_of_ten_columns() {
    let player = Player::with_brick_centered(Brick::o(), 10);
    assert_eq!(player.position(), (3, 0));
    assert_eq!(player.brick(), Brick::o());
}

#[test]
fn centered_rounds_half_the_width_toward_zero() {
    assert_eq!(Player::with_brick_centered(Brick::t(), 11).position(), (3, 0));
    assert_eq!(Player::with_brick_centered(Brick::t(), 4).position(), (0, 0));
    assert_eq!(Player::with_brick_centered(Brick::t(), 1).position(), (-2, 0));
    assert_eq!(Player::with_brick_centered(Brick::t(), 0).position(), (-2, 0));
    assert_eq!(Player::with_brick_centered(Brick::t(), -3).position(), (-3, 0));
    assert_eq!(Player::with_brick_centered(Brick::t(), i32::MAX).position(), (1073741821, 0));
    assert_eq!(Player::with_brick_centered(Brick::t(), i32::MIN).position(), (-1073741826, 0));
}

#[test]
fn centered_rand_picks_the_shape_by_index() {
    let player = Player::with_brick_centered_rand(10, 2);
    assert_eq!(player.position(), (3, 0));
    assert_eq!(player.brick(), Brick::t());
    assert_eq!(Player::with_brick_centered_rand(6, -13).brick(), Brick::z());
    assert_eq!(Player::with_brick_centered_rand(6, -13).position(), (1, 0));
}

#[test]
fn moves_translate_by_one_cell() {
    let player = Player::with_brick_centered(Brick::s(), 10);
    assert_eq!(player.move_left().position(), (2, 0));
    assert_eq!(player.move_right().position(), (4, 0));
    assert_eq!(player.move_down().position(), (3, 1));
    assert_eq!(player.move_down().move_down().move_left().position(), (2, 2));
    assert_eq!(player.move_left().brick(), Brick::s());
    assert_eq!(player.move_right().brick(), Brick::s());
    assert_eq!(player.move_down().brick(), Brick::s());
}

#[test]
fn moves_do_not_look_at_any_board() {
    let player = Player::with_brick_centered(Brick::s(), 0);
    let far = player.move_left().move_left().move_left().move_left();
    assert_eq!(far.position(), (-6, 0));
}

#[test]
fn moves_leave_the_player_alone() {
    let player = Player::with_brick_centered(Brick::s(), 10);
    let _ = player.move_left();
    let _ = player.rotate_left();
    assert_eq!(player, Player::with_brick_centered(Brick::s(), 10));
}

#[test]
fn turns_keep_the_place() {
    let player = Player::with_brick_centered(Brick::l(), 10).move_down();
    assert_eq!(player.rotate_left().position(), (3, 1));
    assert_eq!(player.rotate_left().brick(), Brick::l().rotate_left());
    assert_eq!(player.rotate_right().position(), (3, 1));
    assert_eq!(player.rotate_right().brick(), Brick::l().rotate_right());
}

#[test]
fn set_brick_keeps_the_place() {
    let player = Player::with_brick_centered(Brick::l(), 10).move_down().move_right();
    let changed = player.set_brick(Brick::i());
    assert_eq!(changed.position(), (4, 1));
    assert_eq!(changed.brick(), Brick::i());
}

#[test]
fn player_as_ghost_keeps_the_place() {
    let player = Player::with_brick_centered(Brick::z(), 8).move_down();
    let preview = player.as_ghost();
    assert_eq!(preview.position(), (2, 1));
    assert_eq!(preview.brick(), Brick::z().as_ghost());
    assert_eq!(preview.get_item(1, 1), Some(Cell::GhostMarker));
}

#[test]
fn player_brick_fits_asks_the_board() {
    let mut board = Board::new(10, 20);
    let player = Player::with_brick_centered(Brick::o(), 10);
    assert!(player.brick_fits(&board));
    board.set_field((4, 1), Some(Cell::Normal(Color(1, 2, 3))));
    assert!(!player.brick_fits(&board));
    assert!(player.move_right().move_right().brick_fits(&board));
    assert!(!player.move_left().brick_fits(&board));
    assert!(player.move_down().brick_fits(&board));
    assert!(player.move_left().move_left().brick_fits(&board));
}

#[test]
fn player_at_the_edges() {
    let board = Board::new(10, 20);
    let player = Player::with_brick_centered(Brick::o(), 10);
    let mut left = player;
    for _ in 0..4 {
        left = left.move_left();
    }
    assert_eq!(left.position(), (-1, 0));
    assert!(left.brick_fits(&board));
    assert!(!left.move_left().brick_fits(&board));
    let mut right = player;
    for _ in 0..4 {
        right = right.move_right();
    }
    assert!(right.brick_fits(&board));
    assert!(!right.move_right().brick_fits(&board));
}

#[test]
fn default_player_is_blank_in_the_corner() {
    let player = Player::default();
    assert_eq!(player.position(), (0, 0));
    assert_eq!(player.brick(), Brick::default());
}

#[test]
fn player_is_four_by_four() {
    let player = Player::with_brick_centered(Brick::j(), 10);
    assert_eq!(player.size(), (4, 4));
    assert_eq!(player.width(), 4);
    assert_eq!(player.height(), 4);
    assert_eq!(player.iter_dim(), Brick::j().iter_dim());
    assert_eq!(player.get_item(2, 0), Some(Cell::Normal(Color(0, 0, 255))));
    assert_eq!(player.get_item(0, 0), None);
}

#[test]
fn default_config_is_the_customary_board() {
    let config = Config::default();
    assert_eq!(config.width, 10);
    assert_eq!(config.height, 20);
}
