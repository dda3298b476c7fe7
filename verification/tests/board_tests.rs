use blendtris::board::{Board, Piece};
use blendtris::display::{black, blend, blue, green, red, red_green, white, Color};

fn column(n: usize) -> Vec<Color> {
    vec![black(); n]
}

fn board_with(cells: Vec<Color>, piece: Option<Piece>) -> Board {
    Board { curr_piece: piece, cells, color_blind: false }
}

#[test]
fn rotate_moves_top_to_bottom() {
    let mut p = Piece { cells: vec![red(), green(), blue()], pos: 4 };
    p.rotate();
    assert_eq!(p.cells, vec![green(), blue(), red()]);
    assert_eq!(p.pos, 4);
}

#[test]
fn rotating_once_per_cell_is_identity() {
    let start = vec![red(), green(), blue()];
    let mut p = Piece { cells: start.clone(), pos: 0 };
    for _ in 0..3 {
        p.rotate();
    }
    assert_eq!(p.cells, start);
    let mut single = Piece { cells: vec![blue()], pos: 2 };
    single.rotate();
    assert_eq!(single.cells, vec![blue()]);
}

#[test]
fn drop_moves_into_free_row() {
    let mut b = board_with(column(5), Some(Piece { cells: vec![red(), green()], pos: 0 }));
    assert!(b.drop());
    assert_eq!(b.curr_piece.as_ref().unwrap().pos, 1);
    assert_eq!(b.cells, column(5));
}

#[test]
fn drop_stops_at_bottom() {
    let mut b = board_with(column(5), Some(Piece { cells: vec![red(), green()], pos: 3 }));
    assert!(!b.drop());
    assert_eq!(b.curr_piece.as_ref().unwrap().pos, 3);
}

#[test]
fn drop_stops_on_collision_but_passes_other_colours() {
    let mut cells = column(5);
    cells[4] = red();
    let mut b = board_with(cells.clone(), Some(Piece { cells: vec![red()], pos: 3 }));
    assert!(!b.drop());
    let mut b = board_with(cells, Some(Piece { cells: vec![green()], pos: 3 }));
    assert!(b.drop());
    assert_eq!(b.curr_piece.as_ref().unwrap().pos, 4);
    assert!(!b.drop());
}

#[test]
fn drop_without_piece() {
    let mut b = board_with(column(3), None);
    assert!(!b.drop());
    assert!(b.curr_piece.is_none());
}

#[test]
fn drop_with_piece_far_outside() {
    let mut b = board_with(column(3), Some(Piece { cells: vec![red()], pos: usize::MAX }));
    assert!(!b.drop());
}

#[test]
fn merge_blends_piece_into_column() {
    let mut cells = column(4);
    cells[3] = red();
    let mut b = board_with(cells, Some(Piece { cells: vec![blue(), green()], pos: 2 }));
    b.merge_piece();
    assert!(b.curr_piece.is_none());
    assert_eq!(b.cells, vec![black(), black(), blue(), red_green()]);
}

#[test]
fn merge_without_piece_changes_nothing() {
    let mut b = board_with(vec![red(), black()], None);
    b.merge_piece();
    assert_eq!(b.cells, vec![red(), black()]);
}

#[test]
fn clear_lines_removes_white_rows() {
    let mut b = board_with(vec![white(), red(), white(), blue()], None);
    assert_eq!(b.clear_lines(), 2);
    assert_eq!(b.cells, vec![black(), black(), red(), blue()]);
}

#[test]
fn clear_lines_keeps_order_and_height() {
    let mut b = board_with(vec![black(), green(), red(), white(), blue(), white()], None);
    assert_eq!(b.clear_lines(), 2);
    assert_eq!(b.cells, vec![black(), black(), black(), green(), red(), blue()]);
}

#[test]
fn clear_lines_twice_clears_nothing_more() {
    let mut b = board_with(vec![white(), white(), red_green(), white()], None);
    assert_eq!(b.clear_lines(), 3);
    let after = b.cells.clone();
    assert_eq!(b.clear_lines(), 0);
    assert_eq!(b.cells, after);
    assert_eq!(after, vec![black(), black(), black(), red_green()]);
}

#[test]
fn clear_lines_leaves_piece_alone() {
    let mut b = board_with(vec![black(), white()], Some(Piece { cells: vec![red()], pos: 0 }));
    assert_eq!(b.clear_lines(), 1);
    assert_eq!(b.curr_piece.as_ref().unwrap().cells, vec![red()]);
}

#[test]
fn column_colors_mix_piece_over_cells() {
    let mut cells = column(4);
    cells[1] = blue();
    let b = board_with(cells, Some(Piece { cells: vec![red(), green()], pos: 1 }));
    assert!(b.can_show());
    assert_eq!(b.column_colors(), vec![black(), blend(red(), blue()), green(), black()]);
}

#[test]
fn column_colors_without_piece() {
    let b = board_with(vec![red(), white()], None);
    assert!(b.can_show());
    assert_eq!(b.column_colors(), vec![red(), white()]);
}

#[test]
fn cannot_show_overflowing_mix() {
    let b = board_with(vec![red(), black()], Some(Piece { cells: vec![red()], pos: 0 }));
    assert!(!b.can_show());
}
