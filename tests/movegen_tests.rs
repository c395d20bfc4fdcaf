use chess_engine::board::Board;

fn board_from(placement: &str) -> Board {
    let mut board = Board::new();
    board.init_board_from_fen(placement.to_string());
    board
}

#[test]
fn lone_rook_has_fourteen_moves() {
    let board = board_from("8/8/8/8/3R4/8/8/8");
    let moves = board.get_legal_moves(0x33);
    assert_eq!(moves.len(), 14);
    assert_eq!(moves, vec![0x43, 0x53, 0x63, 0x73, 0x23, 0x13, 0x03, 0x32, 0x31, 0x30, 0x34, 0x35, 0x36, 0x37]);
    assert_eq!(board.get_straights(3, 3), moves);
}

#[test]
fn lone_knight_in_corner_has_two_moves() {
    let board = board_from("8/8/8/8/8/8/8/N7");
    assert_eq!(board.get_legal_moves(0x00), vec![0x21, 0x12]);
}

#[test]
fn lone_queen_and_bishop_counts() {
    let board = board_from("8/8/8/8/3Q4/8/8/8");
    assert_eq!(board.get_legal_moves(0x33).len(), 27);
    let board = board_from("8/8/8/8/3B4/8/8/8");
    assert_eq!(board.get_legal_moves(0x33).len(), 13);
    assert_eq!(board.get_diagonals(3, 3), board.get_legal_moves(0x33));
}

#[test]
fn ray_stops_at_blockers() {
    // Rook on a1, own pawn on a3, enemy knight on c1.
    let board = board_from("8/8/8/8/8/P7/8/R1n5");
    assert_eq!(board.get_legal_moves(0x00), vec![0x10, 0x01, 0x02]);
}

#[test]
fn start_pawn_moves() {
    let board = Board::new();
    assert_eq!(board.get_legal_moves(0x14), vec![0x24, 0x34]);
    assert_eq!(board.get_legal_moves(0x64), vec![0x54, 0x44]);
}

#[test]
fn pawn_captures_and_blocks() {
    // White pawn e2, black pawns d3 and e3: no push, one capture.
    let board = board_from("8/8/8/8/8/3pp3/4P3/8");
    assert_eq!(board.get_legal_moves(0x14), vec![0x23]);
    // Black pawn d3 takes the pawn on e2 diagonally.
    assert_eq!(board.get_legal_moves(0x23), vec![0x13, 0x14]);
}

#[test]
fn pawn_double_push_needs_both_squares() {
    let board = board_from("8/8/8/8/4p3/8/4P3/8");
    assert_eq!(board.get_legal_moves(0x14), vec![0x24]);
}

#[test]
fn pawn_on_last_rank_has_no_push() {
    let board = board_from("4P3/8/8/8/8/8/8/4p3");
    assert!(board.get_legal_moves(0x74).is_empty());
    assert!(board.get_legal_moves(0x04).is_empty());
}

#[test]
fn start_knight_moves() {
    let board = Board::new();
    assert_eq!(board.get_legal_moves(0x01), vec![0x22, 0x20]);
}

#[test]
fn king_moves_and_captures() {
    let board = board_from("8/8/8/8/8/8/3p4/4K3");
    assert_eq!(board.get_legal_moves(0x04), vec![0x14, 0x13, 0x15, 0x03, 0x05]);
}

#[test]
fn empty_square_has_no_moves() {
    let board = Board::new();
    assert!(board.get_legal_moves(0x33).is_empty());
}

#[test]
fn capture_rules() {
    let board = Board::new();
    // Same color.
    assert!(!board.is_capturable(0x00, 0x01));
    // Empty destination.
    assert!(!board.is_capturable(0x00, 0x20));
    assert!(!board.is_capturable(0x14, 0x24));
    // Opposite colors, non-pawn: geometry is the caller's.
    assert!(board.is_capturable(0x00, 0x70));
    let board = board_from("8/8/8/8/8/3pp3/4P3/8");
    assert!(board.is_capturable(0x14, 0x23));
    assert!(!board.is_capturable(0x14, 0x24));
    assert!(board.is_capturable(0x23, 0x14));
}

#[test]
fn all_moves_of_start_position() {
    let board = Board::new();
    let white = board.get_board_legal_moves(true);
    assert_eq!(white.len(), 10);
    assert_eq!(white.get(&0x01), Some(&vec![0x22, 0x20]));
    assert_eq!(white.get(&0x14), Some(&vec![0x24, 0x34]));
    assert!(white.get(&0x00).is_none());
    let black = board.get_board_legal_moves(false);
    assert_eq!(black.len(), 10);
    assert_eq!(black.get(&0x76), Some(&vec![0x57, 0x55]));
    assert_eq!(board.get_move_list(true).len(), 20);
    assert_eq!(board.get_move_list(false).len(), 20);
}

#[test]
fn move_list_order() {
    let board = board_from("8/8/8/8/8/8/8/N6K");
    assert_eq!(
        board.get_move_list(true),
        vec![(0x00, 0x21), (0x00, 0x12), (0x07, 0x17), (0x07, 0x16), (0x07, 0x06)]
    );
}
