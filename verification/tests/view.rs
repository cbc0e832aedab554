use chaichess::board_view::{
    field_background, field_symbol, is_dark_field, BoardView, Cell,
};
use chaichess::game::{BoardState, PieceType, Player};
use chaichess::ui::{center, remaining_wait, wait_step, Area};
use std::collections::HashSet;

fn area(x: u16, y: u16, width: u16, height: u16) -> Area {
    Area { x, y, width, height }
}

#[test]
fn dark_and_light_squares() {
    assert!(!is_dark_field(0, 0));
    assert!(is_dark_field(0, 1));
    assert!(is_dark_field(1, 0));
    assert!(!is_dark_field(1, 1));
    assert!(is_dark_field(7, 0));
    assert!(!is_dark_field(7, 7));
}

#[test]
fn symbols_of_the_pieces() {
    assert_eq!(field_symbol(None), ' ');
    assert_eq!(field_symbol(Some((PieceType::King, Player::Black))), '♚');
    assert_eq!(field_symbol(Some((PieceType::InitKing, Player::Black))), '♚');
    assert_eq!(field_symbol(Some((PieceType::Queen, Player::Black))), '♛');
    assert_eq!(field_symbol(Some((PieceType::Rook, Player::Black))), '♜');
    assert_eq!(field_symbol(Some((PieceType::InitRook, Player::Black))), '♜');
    assert_eq!(field_symbol(Some((PieceType::Bishop, Player::Black))), '♝');
    assert_eq!(field_symbol(Some((PieceType::Knight, Player::Black))), '♞');
    assert_eq!(field_symbol(Some((PieceType::Pawn, Player::Black))), '♟');
    assert_eq!(field_symbol(Some((PieceType::InitPawn, Player::Black))), '♟');
    assert_eq!(field_symbol(Some((PieceType::King, Player::White))), '♔');
    assert_eq!(field_symbol(Some((PieceType::InitKing, Player::White))), '♔');
    assert_eq!(field_symbol(Some((PieceType::Queen, Player::White))), '♕');
    assert_eq!(field_symbol(Some((PieceType::Rook, Player::White))), '♖');
    assert_eq!(field_symbol(Some((PieceType::InitRook, Player::White))), '♖');
    assert_eq!(field_symbol(Some((PieceType::Bishop, Player::White))), '♗');
    assert_eq!(field_symbol(Some((PieceType::Knight, Player::White))), '♘');
    assert_eq!(field_symbol(Some((PieceType::Pawn, Player::White))), '♙');
    assert_eq!(field_symbol(Some((PieceType::InitPawn, Player::White))), '♙');
}

#[test]
fn backgrounds_of_the_squares() {
    assert_eq!(field_background(true, false), (100, 100, 100));
    assert_eq!(field_background(false, false), (250, 250, 250));
    assert_eq!(field_background(true, true), (100, 100, 0));
    assert_eq!(field_background(false, true), (200, 200, 0));
}

#[test]
fn a_view_draws_the_board_upside_down() {
    let view = BoardView::new(BoardState::new());
    assert!(view.highlights.is_empty());
    let cells = view.cells(24, 8);
    assert_eq!(cells.len(), 64);
    // Square 0, White's rook in the corner, comes first and is drawn in
    // the last row.
    assert_eq!(
        cells[0],
        Cell { x: 0, y: 7, symbol: '♖', background: (100, 100, 100) }
    );
    assert_eq!(
        cells[1],
        Cell { x: 3, y: 7, symbol: '♘', background: (250, 250, 250) }
    );
    assert_eq!(
        cells[63],
        Cell { x: 21, y: 0, symbol: '♜', background: (100, 100, 100) }
    );
    assert_eq!(cells[27], Cell { x: 9, y: 4, symbol: ' ', background: (100, 100, 100) });
}

#[test]
fn a_view_leaves_out_what_does_not_fit() {
    let view = BoardView::new(BoardState::new());
    assert_eq!(view.cells(0, 8).len(), 0);
    assert_eq!(view.cells(24, 0).len(), 0);
    // Columns start at 0, 3, 6, ...: a width of 4 holds two of them.
    assert_eq!(view.cells(4, 8).len(), 16);
    assert_eq!(view.cells(3, 8).len(), 8);
    let top = view.cells(24, 1);
    assert_eq!(top.len(), 8);
    assert!(top.iter().all(|cell| cell.y == 0));
    assert_eq!(top[4].symbol, '♚');
}

#[test]
fn a_view_shows_highlights() {
    let mut highlights = HashSet::new();
    highlights.insert(0);
    highlights.insert(1);
    let view = BoardView::newh(BoardState::new(), highlights.clone());
    assert_eq!(view.highlights, highlights);
    let cells = view.cells(24, 8);
    assert_eq!(cells[0].background, (100, 100, 0));
    assert_eq!(cells[1].background, (200, 200, 0));
    assert_eq!(cells[2].background, (100, 100, 100));
}

#[test]
fn squares_under_the_pointer() {
    let board = area(10, 5, 24, 8);
    assert_eq!(BoardView::get_field_index_from_pos(board, 10, 5), Some(56));
    assert_eq!(BoardView::get_field_index_from_pos(board, 12, 5), Some(56));
    assert_eq!(BoardView::get_field_index_from_pos(board, 13, 5), Some(57));
    assert_eq!(BoardView::get_field_index_from_pos(board, 33, 5), Some(63));
    assert_eq!(BoardView::get_field_index_from_pos(board, 10, 12), Some(0));
    assert_eq!(BoardView::get_field_index_from_pos(board, 33, 12), Some(7));
    assert_eq!(BoardView::get_field_index_from_pos(board, 22, 8), Some(36));
    assert_eq!(BoardView::get_field_index_from_pos(board, 9, 5), None);
    assert_eq!(BoardView::get_field_index_from_pos(board, 34, 5), None);
    assert_eq!(BoardView::get_field_index_from_pos(board, 10, 4), None);
    assert_eq!(BoardView::get_field_index_from_pos(board, 10, 13), None);
    assert_eq!(BoardView::get_field_index_from_pos(area(0, 0, 0, 0), 0, 0), None);
}

#[test]
fn centring_within_a_larger_area() {
    assert_eq!(center(area(0, 0, 80, 24), 24, 8), area(28, 8, 24, 8));
    assert_eq!(center(area(10, 20, 80, 24), 30, 12), area(35, 26, 30, 12));
    assert_eq!(center(area(0, 0, 25, 9), 24, 8), area(0, 0, 24, 8));
}

#[test]
fn centring_is_cut_to_the_area() {
    // The rectangle wanted is larger than the area: what the two share is
    // left.
    assert_eq!(center(area(0, 0, 10, 4), 24, 8), area(0, 0, 10, 4));
    assert_eq!(center(area(5, 5, 10, 4), 24, 8), area(5, 5, 10, 4));
    assert_eq!(center(area(5, 5, 10, 20), 4, 30), area(8, 5, 4, 20));
    assert_eq!(center(area(3, 7, 0, 0), 2, 2), area(3, 7, 0, 0));
    assert_eq!(center(area(0, 0, 80, 24), 0, 0), area(40, 12, 0, 0));
}

#[test]
fn waiting_and_aborting() {
    assert_eq!(remaining_wait(1000, 0), 1000);
    assert_eq!(remaining_wait(1000, 400), 600);
    assert_eq!(remaining_wait(1000, 1000), 0);
    assert_eq!(remaining_wait(1000, 1001), 0);
    assert_eq!(remaining_wait(0, u128::MAX), 0);
    assert_eq!(wait_step(Some('q'), 1000, 0), Some(true));
    assert_eq!(wait_step(Some('q'), 1000, 2000), Some(true));
    assert_eq!(wait_step(Some('x'), 1000, 0), None);
    assert_eq!(wait_step(None, 1000, 999), None);
    assert_eq!(wait_step(None, 1000, 1000), Some(false));
    assert_eq!(wait_step(Some('Q'), 1000, 1001), Some(false));
    assert_eq!(wait_step(None, 0, 0), Some(false));
}
