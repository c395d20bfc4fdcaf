use vstd::prelude::*;
use vstd::string::*;

verus! {

#[derive(Clone, Copy, PartialEq, Eq, Debug, Structural)]
pub enum PieceType {
    Empty,
    Pawn,
    Knight,
    Bishop,
    Rook,
    Queen,
    King,
}

#[derive(Clone, Copy, PartialEq, Eq, Debug, Structural)]
pub enum PieceColor {
    White,
    Black,
    NoColor,
}

/// What stands on a square, together with the square it was last placed at.
#[derive(Clone, Copy, PartialEq, Eq, Debug, Structural)]
pub struct DynamicPiece {
    pub piece_type: PieceType,
    pub piece_color: PieceColor,
    pub position: usize,
}

/// A piece has a color exactly when it is not the empty marker.
pub open spec fn piece_ok(p: DynamicPiece) -> bool {
    (p.piece_type == PieceType::Empty) == (p.piece_color == PieceColor::NoColor)
}

pub open spec fn empty_piece(position: int) -> DynamicPiece {
    DynamicPiece { piece_type: PieceType::Empty, piece_color: PieceColor::NoColor, position: position as usize }
}

pub open spec fn opposite(c: PieceColor) -> PieceColor {
    match c {
        PieceColor::White => PieceColor::Black,
        PieceColor::Black => PieceColor::White,
        PieceColor::NoColor => PieceColor::NoColor,
    }
}

impl DynamicPiece {
    pub fn new(piece_type: PieceType, piece_color: PieceColor, position: usize) -> (r: DynamicPiece)
        ensures
            r == (DynamicPiece { piece_type, piece_color, position }),
    {
        DynamicPiece { piece_type, piece_color, position }
    }

    pub fn get_type(&self) -> (r: PieceType)
        ensures
            r == self.piece_type,
    {
        self.piece_type
    }

    pub fn get_color(&self) -> (r: PieceColor)
        ensures
            r == self.piece_color,
    {
        self.piece_color
    }

    pub fn get_type_and_color(&self) -> (r: (PieceType, PieceColor))
        ensures
            r == (self.piece_type, self.piece_color),
    {
        (self.piece_type, self.piece_color)
    }

    pub fn get_position(&self) -> (r: usize)
        ensures
            r == self.position,
    {
        self.position
    }
}

/// The glyph that shows a piece on a text board; '-' for an empty square.
pub open spec fn glyph(t: PieceType, c: PieceColor) -> char {
    match (c, t) {
        (PieceColor::White, PieceType::Pawn) => '\u{2659}',
        (PieceColor::White, PieceType::Knight) => '\u{2658}',
        (PieceColor::White, PieceType::Bishop) => '\u{2657}',
        (PieceColor::White, PieceType::Rook) => '\u{2656}',
        (PieceColor::White, PieceType::Queen) => '\u{2655}',
        (PieceColor::White, PieceType::King) => '\u{2654}',
        (PieceColor::Black, PieceType::Pawn) => '\u{265F}',
        (PieceColor::Black, PieceType::Knight) => '\u{265E}',
        (PieceColor::Black, PieceType::Bishop) => '\u{265D}',
        (PieceColor::Black, PieceType::Rook) => '\u{265C}',
        (PieceColor::Black, PieceType::Queen) => '\u{265B}',
        (PieceColor::Black, PieceType::King) => '\u{265A}',
        _ => '-',
    }
}

/// The glyph of a piece, as a one-character string.
pub fn get_piece_symbol(piece_type: PieceType, piece_color: PieceColor) -> (r: String)
    ensures
        r@ == seq![glyph(piece_type, piece_color)],
{
    let s: &str = match (piece_color, piece_type) {
        (PieceColor::White, PieceType::Pawn) => "\u{2659}",
        (PieceColor::White, PieceType::Knight) => "\u{2658}",
        (PieceColor::White, PieceType::Bishop) => "\u{2657}",
        (PieceColor::White, PieceType::Rook) => "\u{2656}",
        (PieceColor::White, PieceType::Queen) => "\u{2655}",
        (PieceColor::White, PieceType::King) => "\u{2654}",
        (PieceColor::Black, PieceType::Pawn) => "\u{265F}",
        (PieceColor::Black, PieceType::Knight) => "\u{265E}",
        (PieceColor::Black, PieceType::Bishop) => "\u{265D}",
        (PieceColor::Black, PieceType::Rook) => "\u{265C}",
        (PieceColor::Black, PieceType::Queen) => "\u{265B}",
        (PieceColor::Black, PieceType::King) => "\u{265A}",
        _ => "-",
    };
    proof {
        reveal_strlit("\u{2659}");
        reveal_strlit("\u{2658}");
        reveal_strlit("\u{2657}");
        reveal_strlit("\u{2656}");
        reveal_strlit("\u{2655}");
        reveal_strlit("\u{2654}");
        reveal_strlit("\u{265F}");
        reveal_strlit("\u{265E}");
        reveal_strlit("\u{265D}");
        reveal_strlit("\u{265C}");
        reveal_strlit("\u{265B}");
        reveal_strlit("\u{265A}");
        reveal_strlit("-");
    }
    String::from_str(s)
}

} // verus!
