use chess_engine::board::Board;
use chess_engine::piece::{get_piece_symbol, DynamicPiece, PieceColor, PieceType};
use chess_engine::square::{file_rank_from_hex, file_rank_to_hex, hex_to_chess_notation};

const START: &str = "rnbqkbnr/pppppppp/8/8/8/8/PPPPPPPP/RNBQKBNR w KQkq - 0 1";

fn board_from(placement: &str) -> Board {
    let mut board = Board::new();
    board.init_board_from_fen(placement.to_string());
    board
}

fn placement_field(board: &Board) -> String {
    board.get_fen().split(' ').next().unwrap().to_string()
}

#[test]
fn start_position_text() {
    assert_eq!(Board::new().get_fen(), START);
}

#[test]
fn start_placement_round_trip() {
    let field = "rnbqkbnr/pppppppp/8/8/8/8/PPPPPPPP/RNBQKBNR";
    let board = board_from(field);
    assert_eq!(placement_field(&board), field);
    assert_eq!(board.get_fen(), START);
}

#[test]
fn placement_round_trip_middlegame() {
    let field = "r1bqk2r/pppp1ppp/2n2n2/2b1p3/2B1P3/5N2/PPPP1PPP/RNBQK2R";
    assert_eq!(placement_field(&board_from(field)), field);
}

#[test]
fn suffix_is_fixed_whatever_was_read() {
    let board = board_from("8/8/8/8/8/8/8/4K3 b - - 12 40");
    assert_eq!(board.get_fen(), "8/8/8/8/8/8/8/4K3 w KQkq - 0 1");
}

#[test]
fn unknown_characters_are_skipped() {
    let board = board_from("8/8/8/8/8/8/8/x4K3");
    assert_eq!(placement_field(&board), "8/8/8/8/8/8/8/4K3");
}

#[test]
fn import_builds_color_lists_in_reading_order() {
    let board = board_from("k7/8/8/8/8/8/8/R3K3");
    let whites = board.get_white_pieces();
    assert_eq!(whites.len(), 2);
    assert_eq!(whites[0].get_type(), PieceType::Rook);
    assert_eq!(whites[0].get_position(), 0);
    assert_eq!(whites[1].get_type(), PieceType::King);
    assert_eq!(whites[1].get_position(), 4);
    let blacks = board.get_black_pieces();
    assert_eq!(blacks.len(), 1);
    assert_eq!(blacks[0].get_type_and_color(), (PieceType::King, PieceColor::Black));
    assert_eq!(blacks[0].get_position(), 0x70);
}

#[test]
fn start_position_pieces() {
    let board = Board::new();
    assert_eq!(board.get_white_pieces().len(), 16);
    assert_eq!(board.get_black_pieces().len(), 16);
    let e1 = board.get_piece(4);
    assert_eq!(e1.get_type(), PieceType::King);
    assert_eq!(e1.get_color(), PieceColor::White);
    assert_eq!(e1.get_position(), 4);
    let d8 = board.get_piece(0x73);
    assert_eq!(d8.get_type_and_color(), (PieceType::Queen, PieceColor::Black));
    let e4 = board.get_piece(0x34);
    assert_eq!(e4.get_type_and_color(), (PieceType::Empty, PieceColor::NoColor));
}

#[test]
fn set_piece_updates_lists_and_text() {
    let mut board = board_from("8/8/8/8/8/8/8/8");
    board.set_piece(0x33, DynamicPiece::new(PieceType::Queen, PieceColor::White, 0));
    assert_eq!(board.get_piece(0x33).get_position(), 0x33);
    assert_eq!(board.get_fen(), "8/8/8/8/3Q4/8/8/8 w KQkq - 0 1");
    let whites = board.get_white_pieces();
    assert_eq!(whites.len(), 1);
    assert_eq!(whites[0].get_position(), 0x33);
    assert!(board.get_black_pieces().is_empty());
}

#[test]
fn update_fen_keeps_text() {
    let mut board = Board::new();
    board.update_fen();
    assert_eq!(board.get_fen(), START);
}

#[test]
fn copy_is_independent() {
    let board = Board::new();
    let mut copy = board.copy();
    assert_eq!(copy.get_fen(), START);
    copy.set_piece(0x14, DynamicPiece::new(PieceType::Empty, PieceColor::NoColor, 0));
    assert_eq!(board.get_fen(), START);
    assert_eq!(copy.get_fen(), "rnbqkbnr/pppppppp/8/8/8/8/PPPP1PPP/RNBQKBNR w KQkq - 0 1");
}

#[test]
fn transition_leaves_source_unchanged() {
    let board = Board::new();
    let before_from = board.get_piece(0x14);
    let before_to = board.get_piece(0x34);
    let after = board.simulate_move(0x14, 0x34);
    assert_eq!(board.get_piece(0x14), before_from);
    assert_eq!(board.get_piece(0x34), before_to);
    assert_eq!(board.get_fen(), START);
    assert_eq!(after.get_fen(), "rnbqkbnr/pppppppp/8/8/4P3/8/PPPP1PPP/RNBQKBNR w KQkq - 0 1");
    assert_eq!(after.get_piece(0x34).get_position(), 0x34);
    assert_eq!(after.get_piece(0x14).get_type(), PieceType::Empty);
}

#[test]
fn transition_capture_removes_piece_from_list() {
    let board = board_from("8/8/8/8/8/3p4/4P3/8");
    let after = board.simulate_move(0x14, 0x23);
    assert!(after.get_black_pieces().is_empty());
    let whites = after.get_white_pieces();
    assert_eq!(whites.len(), 1);
    assert_eq!(whites[0].get_position(), 0x23);
    assert_eq!(placement_field(&after), "8/8/8/8/8/3P4/8/8");
    assert_eq!(board.get_black_pieces().len(), 1);
}

#[test]
fn square_encoding() {
    assert_eq!(file_rank_to_hex(3, 3), 0x33);
    assert_eq!(file_rank_to_hex(7, 7), 0x77);
    assert_eq!(file_rank_from_hex(0x33), (3, 3));
    assert_eq!(file_rank_from_hex(0x65), (5, 6));
}

#[test]
fn algebraic_names() {
    assert_eq!(hex_to_chess_notation(0x34), "e4");
    assert_eq!(hex_to_chess_notation(0x00), "a1");
    assert_eq!(hex_to_chess_notation(0x77), "h8");
}

#[test]
fn piece_glyphs() {
    assert_eq!(get_piece_symbol(PieceType::Pawn, PieceColor::White), "\u{2659}");
    assert_eq!(get_piece_symbol(PieceType::King, PieceColor::Black), "\u{265A}");
    assert_eq!(get_piece_symbol(PieceType::Empty, PieceColor::NoColor), "-");
}
