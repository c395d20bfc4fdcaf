use chess_engine::board::Board;
use chess_engine::search::{evaluate, search, PositionCounter};

fn board_from(placement: &str) -> Board {
    let mut board = Board::new();
    board.init_board_from_fen(placement.to_string());
    board
}

#[test]
fn depth_zero_start_is_level() {
    let mut counter = PositionCounter::new();
    assert_eq!(search(&Board::new(), 0, true, &mut counter), 0);
    assert_eq!(counter.positions(), 1);
}

#[test]
fn evaluation_weights() {
    assert_eq!(evaluate(&Board::new()), 0);
    // Queen and rook against a pawn and a king: 9 + 5 - 1.
    assert_eq!(evaluate(&board_from("k7/p7/8/8/8/8/8/QR2K3")), 13);
    // Knight, bishop against rook.
    assert_eq!(evaluate(&board_from("r7/8/8/8/8/8/8/NB6")), 1);
}

#[test]
fn full_tree_leaf_counts() {
    let board = Board::new();
    let mut counter = PositionCounter::new();
    search(&board, 1, true, &mut counter);
    assert_eq!(counter.positions(), 20);
    let mut counter = PositionCounter::new();
    search(&board, 2, true, &mut counter);
    assert_eq!(counter.positions(), 20 * 20);
}

#[test]
fn shallow_start_scores() {
    let board = Board::new();
    let mut counter = PositionCounter::new();
    assert_eq!(search(&board, 1, true, &mut counter), 0);
    let mut counter = PositionCounter::new();
    assert_eq!(search(&board, 2, true, &mut counter), 0);
}

#[test]
fn maximizer_takes_the_queen() {
    // White rook a1 may take the black queen on a8; black king h8 can only move.
    let board = board_from("q6k/8/8/8/8/8/8/R6K");
    let mut counter = PositionCounter::new();
    assert_eq!(search(&board, 1, true, &mut counter), 5);
}

#[test]
fn minimizer_takes_the_queen() {
    let board = board_from("r6k/8/8/8/8/8/8/Q6K");
    let mut counter = PositionCounter::new();
    assert_eq!(search(&board, 1, false, &mut counter), -5);
}

#[test]
fn no_moves_falls_back_to_evaluation() {
    // Black has only a pawn blocked by a white pawn.
    let board = board_from("8/8/8/8/8/4p3/4P3/8");
    let mut counter = PositionCounter::new();
    assert_eq!(search(&board, 3, false, &mut counter), 0);
    assert_eq!(counter.positions(), 1);
}

#[test]
fn counter_counts() {
    let mut counter = PositionCounter::new();
    assert_eq!(counter.positions(), 0);
    counter.add();
    counter.add();
    assert_eq!(counter.positions(), 2);
}
