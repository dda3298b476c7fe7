use std::time::Duration;

use blendtris::board::Piece;
use blendtris::display::{black, blue, green, red, red_blue, white, Color};
use blendtris::board::full_rows;
use blendtris::game::{
    frames_per_square, piece_of_draws, points_for_lines, Game, Input, Reaction, BOARD_HEIGHT,
    GAME_HEIGHT, GAME_WIDTH,
};

fn is_primary(c: Color) -> bool {
    c == red() || c == green() || c == blue()
}

fn preview(game: &Game) -> Vec<Color> {
    game.panel().next_cells
}

#[test]
fn new_game_starts_empty() {
    let g = Game::new();
    assert_eq!(g.lines, 0);
    assert_eq!(g.score, 0);
    assert!(g.board.curr_piece.is_none());
    assert!(!g.board.color_blind);
    assert_eq!(g.board.cells, vec![black(); 32]);
    assert_eq!(BOARD_HEIGHT, 32);
    assert_eq!(GAME_HEIGHT, 33);
    assert_eq!(GAME_WIDTH, 35);
}

#[test]
fn new_pieces_are_one_to_three_primaries_at_the_top() {
    let mut g = Game::new();
    let mut sizes = [false; 4];
    for _ in 0..200 {
        g.new_piece();
        let p = g.board.curr_piece.as_ref().unwrap();
        assert_eq!(p.pos, 0);
        assert!(p.cells.len() >= 1 && p.cells.len() <= 3);
        assert!(p.cells.iter().all(|c| is_primary(*c)));
        sizes[p.cells.len()] = true;
    }
    assert!(sizes[1] && sizes[2] && sizes[3]);
}

#[test]
fn new_piece_brings_in_the_previewed_piece() {
    let mut g = Game::new();
    let shown = preview(&g);
    g.new_piece();
    let p = g.board.curr_piece.clone().unwrap();
    for i in 0..5 {
        let expected = if i < p.cells.len() { p.cells[i] } else { black() };
        assert_eq!(shown[i], expected);
    }
}

#[test]
fn level_rises_every_ten_lines() {
    let mut g = Game::new();
    assert_eq!(g.level(), 0);
    g.lines = 9;
    assert_eq!(g.level(), 0);
    g.lines = 25;
    assert_eq!(g.level(), 2);
}

#[test]
fn frames_per_square_table() {
    let expected: [(u32, u64); 16] = [
        (0, 48), (1, 43), (2, 38), (3, 33), (4, 28), (5, 23), (6, 18), (7, 13), (8, 8),
        (9, 6), (10, 5), (12, 5), (13, 4), (16, 3), (19, 2), (29, 1),
    ];
    for (level, frames) in expected {
        assert_eq!(frames_per_square(level), frames);
    }
    assert_eq!(frames_per_square(u32::MAX), 1);
}

#[test]
fn speed_never_decreases_with_level() {
    for level in 0..40u32 {
        assert!(frames_per_square(level + 1) <= frames_per_square(level));
        assert!(frames_per_square(level) >= 1);
    }
}

#[test]
fn step_delay_follows_level() {
    let mut g = Game::new();
    assert_eq!(g.step_delay_ms(), 33 * 48);
    assert_eq!(g.step_delay(), Duration::from_millis(1584));
    g.lines = 100;
    assert_eq!(g.step_delay(), Duration::from_millis(165));
    g.lines = 290;
    assert_eq!(g.step_delay(), Duration::from_millis(33));
}

#[test]
fn toggle_colorblind_twice_restores() {
    let mut g = Game::new();
    g.toggle_colorblind();
    assert!(g.board.color_blind);
    g.toggle_colorblind();
    assert!(!g.board.color_blind);
}

#[test]
fn lost_when_entry_row_is_taken() {
    let mut g = Game::new();
    assert!(!g.lost());
    g.board.cells[1] = red();
    assert!(!g.lost());
    g.board.cells[2] = red();
    assert!(g.lost());
}

#[test]
fn points_per_cleared_rows() {
    assert_eq!(points_for_lines(1), 40);
    assert_eq!(points_for_lines(2), 100);
    assert_eq!(points_for_lines(3), 400);
    assert_eq!(points_for_lines(4), 1200);
}

#[test]
fn clear_and_score_counts_level_before_clearing() {
    let mut g = Game::new();
    g.lines = 19;
    g.score = 7;
    g.board.cells[31] = white();
    g.board.cells[30] = red();
    g.board.cells[29] = white();
    assert!(g.can_clear_and_score());
    assert_eq!(g.clear_and_score(), 2);
    assert_eq!(g.score, 7 + 100 * 2);
    assert_eq!(g.lines, 21);
    assert_eq!(g.board.cells[31], red());
    assert_eq!(g.board.cells[30], black());
}

#[test]
fn clear_and_score_without_full_rows() {
    let mut g = Game::new();
    g.board.cells[31] = red_blue();
    assert_eq!(g.clear_and_score(), 0);
    assert_eq!(g.score, 0);
    assert_eq!(g.lines, 0);
}

#[test]
fn too_many_full_rows_are_refused() {
    let mut g = Game::new();
    for row in 27..32 {
        g.board.cells[row] = white();
    }
    assert!(!g.can_clear_and_score());
    g.board.cells[27] = black();
    assert!(g.can_clear_and_score());
    g.score = u32::MAX - 10;
    assert!(!g.can_clear_and_score());
}

#[test]
fn hard_drop_scores_one_point_per_row() {
    let mut g = Game::new();
    g.board.curr_piece = Some(Piece { cells: vec![red(), green()], pos: 0 });
    assert!(g.can_apply(Input::HardDrop));
    assert_eq!(g.apply(Input::HardDrop), Reaction::Landed);
    assert_eq!(g.score, 30);
    assert!(g.board.curr_piece.is_none());
    assert_eq!(g.board.cells[30], red());
    assert_eq!(g.board.cells[31], green());
    assert_eq!(g.board.cells[29], black());
}

#[test]
fn hard_drop_lands_on_colliding_colour_and_mixes_others() {
    let mut g = Game::new();
    g.board.cells[31] = red();
    g.board.cells[30] = green();
    g.board.curr_piece = Some(Piece { cells: vec![blue()], pos: 0 });
    assert_eq!(g.apply(Input::HardDrop), Reaction::Landed);
    assert_eq!(g.score, 31);
    assert_eq!(g.board.cells[31], red_blue());
    assert_eq!(g.board.cells[30], green());
}

#[test]
fn hard_drop_that_would_overflow_is_refused() {
    let mut g = Game::new();
    g.board.cells[0] = red();
    g.board.cells[1] = red();
    g.board.curr_piece = Some(Piece { cells: vec![red()], pos: 0 });
    assert!(!g.can_apply(Input::HardDrop));
    g.board.cells[0] = black();
    g.board.cells[1] = black();
    g.score = u32::MAX;
    assert!(!g.can_apply(Input::HardDrop));
}

#[test]
fn rotate_and_toggle_inputs() {
    let mut g = Game::new();
    g.board.curr_piece = Some(Piece { cells: vec![red(), blue()], pos: 3 });
    assert_eq!(g.apply(Input::Rotate), Reaction::Continue);
    let p = g.board.curr_piece.clone().unwrap();
    assert_eq!(p.cells, vec![blue(), red()]);
    assert_eq!(p.pos, 3);
    assert_eq!(g.apply(Input::ToggleColorBlind), Reaction::Continue);
    assert!(g.board.color_blind);
    assert_eq!(g.apply(Input::Quit), Reaction::Quit);
    assert_eq!(g.apply(Input::Ignored), Reaction::Continue);
    g.board.curr_piece = Some(Piece { cells: vec![], pos: 0 });
    assert!(!g.can_apply(Input::Rotate));
}

#[test]
fn tick_moves_then_lands() {
    let mut g = Game::new();
    g.board.curr_piece = Some(Piece { cells: vec![green()], pos: 30 });
    assert!(g.can_tick());
    assert!(!g.tick());
    assert_eq!(g.board.curr_piece.as_ref().unwrap().pos, 31);
    assert!(g.tick());
    assert!(g.board.curr_piece.is_none());
    assert_eq!(g.board.cells[31], green());
    assert!(g.tick());
}

#[test]
fn panel_groups_numbers() {
    let mut g = Game::new();
    g.lines = 1234567;
    g.score = 999;
    let panel = g.panel();
    assert_eq!(panel.lines, "1,234,567");
    assert_eq!(panel.score, "999");
    assert_eq!(panel.level, 123456);
    assert_eq!(panel.next_cells.len(), 5);
}

#[test]
fn piece_of_draws_maps_each_draw_to_a_colour() {
    let p = piece_of_draws(&vec![2, 0, 1]);
    assert_eq!(p.pos, 0);
    assert_eq!(p.cells, vec![blue(), red(), green()]);
    let q = piece_of_draws(&vec![1]);
    assert_eq!(q.cells, vec![green()]);
}

#[test]
fn spawn_next_brings_in_the_next_piece() {
    let mut g = Game::new();
    let shown = preview(&g);
    assert!(g.spawn_next());
    let p = g.board.curr_piece.clone().unwrap();
    assert_eq!(p.pos, 0);
    assert_eq!(shown[0], p.cells[0]);
}

#[test]
fn spawn_next_stops_when_entry_row_is_taken() {
    let mut g = Game::new();
    g.board.cells[2] = green();
    assert!(!g.spawn_next());
    assert!(g.board.curr_piece.is_none());
}

#[test]
fn a_game_without_rotation_always_passes_its_checks() {
    let mut g = Game::new();
    let mut spawned = 0;
    for step in 0..20000 {
        if g.board.curr_piece.is_none() {
            assert!(g.can_clear_and_score());
            assert!(full_rows(&g.board.cells) <= 3);
            g.clear_and_score();
            if !g.spawn_next() {
                break;
            }
            spawned += 1;
        }
        assert!(g.board.can_show());
        assert!(g.can_tick());
        if step % 7 == 0 {
            assert!(g.can_apply(Input::HardDrop));
            assert_eq!(g.apply(Input::HardDrop), Reaction::Landed);
        } else {
            g.tick();
        }
        for i in 0..g.board.cells.len() {
            for j in i + 1..g.board.cells.len() {
                if g.board.cells[i] != black() {
                    assert!(g.board.cells[j] != black());
                }
            }
        }
    }
    assert!(spawned > 0);
}

#[test]
fn a_spawned_piece_lands_within_the_board_height() {
    let mut g = Game::new();
    assert!(g.spawn_next());
    let len = g.board.curr_piece.as_ref().unwrap().cells.len();
    let mut ticks = 0;
    while g.board.curr_piece.is_some() {
        g.tick();
        ticks += 1;
    }
    assert!(ticks <= 32 - len + 1);
    assert_eq!(ticks, 32 - len + 1);
}
