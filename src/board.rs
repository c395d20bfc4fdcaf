use vstd::prelude::*;
use vstd::string::*;
use crate::piece::{DynamicPiece, PieceColor, PieceType, empty_piece, piece_ok};
use crate::square::{digit_char, is_square, lemma_square_coords, square_at};

verus! {

// ---------------------------------------------------------------------------
// The board as a sequence of 128 cells
// ---------------------------------------------------------------------------

/// A board model: 128 cells, each recording its own index, only the 64
/// addressed squares ever holding a piece.
pub open spec fn board_ok(b: Seq<DynamicPiece>) -> bool {
    &&& b.len() == 128
    &&& forall|i: int| 0 <= i < 128 ==> (#[trigger] b[i]).position == i && piece_ok(b[i])
    &&& forall|i: int|
        0 <= i < 128 && !is_square(i) ==> (#[trigger] b[i]).piece_type == PieceType::Empty
}

pub open spec fn empty_board() -> Seq<DynamicPiece> {
    Seq::new(128, |i: int| empty_piece(i))
}

/// The k-th square in reading order: rank 8 down to rank 1, file a to h.
pub open spec fn scan_square(k: int) -> int {
    square_at(k % 8, 7 - k / 8)
}

/// The pieces of one color among the first k squares in reading order.
pub open spec fn pieces_upto(b: Seq<DynamicPiece>, c: PieceColor, k: nat) -> Seq<DynamicPiece>
    decreases k,
{
    if k == 0 {
        seq![]
    } else {
        let prev = pieces_upto(b, c, (k - 1) as nat);
        let p = b[scan_square(k - 1)];
        if p.piece_color == c {
            prev.push(p)
        } else {
            prev
        }
    }
}

/// The pieces of one color, in reading order.
pub open spec fn pieces_of(b: Seq<DynamicPiece>, c: PieceColor) -> Seq<DynamicPiece> {
    pieces_upto(b, c, 64)
}

/// The board after the piece on `from` moves to `to`, whatever stood there.
pub open spec fn apply_move(b: Seq<DynamicPiece>, from: int, to: int) -> Seq<DynamicPiece> {
    let moving = DynamicPiece {
        piece_type: b[from].piece_type,
        piece_color: b[from].piece_color,
        position: to as usize,
    };
    b.update(from, empty_piece(from)).update(to, moving)
}

// ---------------------------------------------------------------------------
// Placement text
// ---------------------------------------------------------------------------

pub open spec fn piece_letter(t: PieceType, c: PieceColor) -> char {
    match (c, t) {
        (PieceColor::White, PieceType::Pawn) => 'P',
        (PieceColor::White, PieceType::Knight) => 'N',
        (PieceColor::White, PieceType::Bishop) => 'B',
        (PieceColor::White, PieceType::Rook) => 'R',
        (PieceColor::White, PieceType::Queen) => 'Q',
        (PieceColor::White, PieceType::King) => 'K',
        (PieceColor::Black, PieceType::Pawn) => 'p',
        (PieceColor::Black, PieceType::Knight) => 'n',
        (PieceColor::Black, PieceType::Bishop) => 'b',
        (PieceColor::Black, PieceType::Rook) => 'r',
        (PieceColor::Black, PieceType::Queen) => 'q',
        (PieceColor::Black, PieceType::King) => 'k',
        _ => ' ',
    }
}

/// The piece that a placement letter stands for; the empty marker for any
/// other character.
pub open spec fn letter_piece(ch: char) -> (PieceType, PieceColor) {
    if ch == 'P' {
        (PieceType::Pawn, PieceColor::White)
    } else if ch == 'N' {
        (PieceType::Knight, PieceColor::White)
    } else if ch == 'B' {
        (PieceType::Bishop, PieceColor::White)
    } else if ch == 'R' {
        (PieceType::Rook, PieceColor::White)
    } else if ch == 'Q' {
        (PieceType::Queen, PieceColor::White)
    } else if ch == 'K' {
        (PieceType::King, PieceColor::White)
    } else if ch == 'p' {
        (PieceType::Pawn, PieceColor::Black)
    } else if ch == 'n' {
        (PieceType::Knight, PieceColor::Black)
    } else if ch == 'b' {
        (PieceType::Bishop, PieceColor::Black)
    } else if ch == 'r' {
        (PieceType::Rook, PieceColor::Black)
    } else if ch == 'q' {
        (PieceType::Queen, PieceColor::Black)
    } else if ch == 'k' {
        (PieceType::King, PieceColor::Black)
    } else {
        (PieceType::Empty, PieceColor::NoColor)
    }
}

/// The value of a digit 1..8; 0 for any other character.
pub open spec fn digit_value(ch: char) -> int {
    if ch == '1' {
        1
    } else if ch == '2' {
        2
    } else if ch == '3' {
        3
    } else if ch == '4' {
        4
    } else if ch == '5' {
        5
    } else if ch == '6' {
        6
    } else if ch == '7' {
        7
    } else if ch == '8' {
        8
    } else {
        0
    }
}

/// A run of empty squares, written as its length.
pub open spec fn run_text(run: int) -> Seq<char> {
    if run > 0 {
        seq![digit_char(run)]
    } else {
        seq![]
    }
}

/// One rank from `file` on, `run` empty squares being pending.
pub open spec fn rank_text(b: Seq<DynamicPiece>, rank: int, file: int, run: int) -> Seq<char>
    decreases 8 - file,
{
    if file >= 8 {
        run_text(run)
    } else {
        let p = b[square_at(file, rank)];
        if p.piece_type == PieceType::Empty {
            rank_text(b, rank, file + 1, run + 1)
        } else {
            run_text(run) + seq![piece_letter(p.piece_type, p.piece_color)] + rank_text(
                b,
                rank,
                file + 1,
                0,
            )
        }
    }
}

/// The top n ranks, separated by '/'.
pub open spec fn ranks_text(b: Seq<DynamicPiece>, n: nat) -> Seq<char>
    decreases n,
{
    if n == 0 {
        seq![]
    } else {
        ranks_text(b, (n - 1) as nat) + rank_text(b, 8 - n, 0, 0) + if n < 8 {
            seq!['/']
        } else {
            seq![]
        }
    }
}

/// The placement field of a board.
pub open spec fn placement(b: Seq<DynamicPiece>) -> Seq<char> {
    ranks_text(b, 8)
}

/// What follows the placement field: side to move, castling rights and
/// counters are not tracked, so the text is always the same.
pub open spec fn fen_suffix() -> Seq<char> {
    seq![' ', 'w', ' ', 'K', 'Q', 'k', 'q', ' ', '-', ' ', '0', ' ', '1']
}

pub open spec fn fen_text(b: Seq<DynamicPiece>) -> Seq<char> {
    placement(b) + fen_suffix()
}

/// Reading state: rows read from the top, file, whether a space ended the
/// field, and the board so far.
pub type ScanState = (int, int, bool, Seq<DynamicPiece>);

/// One character of a placement field. Digits skip squares, letters place a
/// piece, '/' starts the next rank, a space ends the field, anything else is
/// skipped. Squares beyond the last rank or file are never written.
pub open spec fn scan_step(st: ScanState, ch: char) -> ScanState {
    let (row, file, stopped, b) = st;
    if stopped {
        st
    } else if ch == ' ' {
        (row, file, true, b)
    } else if ch == '/' {
        (if row < 8 { row + 1 } else { 8 }, 0, false, b)
    } else if digit_value(ch) > 0 {
        let f = file + digit_value(ch);
        (row, if f < 8 { f } else { 8 }, false, b)
    } else if letter_piece(ch).0 != PieceType::Empty {
        let (t, c) = letter_piece(ch);
        let s = square_at(file, 7 - row);
        let b2 = if row < 8 && file < 8 {
            b.update(s, DynamicPiece { piece_type: t, piece_color: c, position: s as usize })
        } else {
            b
        };
        (row, if file < 8 { file + 1 } else { 8 }, false, b2)
    } else {
        st
    }
}

pub open spec fn scan(s: Seq<char>, n: nat) -> ScanState
    decreases n,
{
    if n == 0 {
        (0, 0, false, empty_board())
    } else {
        scan_step(scan(s, (n - 1) as nat), s[n - 1])
    }
}

/// The board that a placement field describes, read from an empty board.
pub open spec fn parsed_board(s: Seq<char>) -> Seq<DynamicPiece> {
    scan(s, s.len()).3
}

pub open spec fn start_fen() -> Seq<char> {
    "rnbqkbnr/pppppppp/8/8/8/8/PPPPPPPP/RNBQKBNR w KQkq - 0 1"@
}

// ---------------------------------------------------------------------------
// Lemmas
// ---------------------------------------------------------------------------

pub proof fn lemma_scan_square(k: int)
    requires
        0 <= k < 64,
    ensures
        is_square(scan_square(k)),
{
    lemma_square_coords(k % 8, 7 - k / 8);
}

/// The pieces listed for a color are pieces of that color, each standing
/// where its position says, at most one per square scanned.
pub proof fn lemma_pieces_upto(b: Seq<DynamicPiece>, c: PieceColor, k: nat)
    requires
        board_ok(b),
        k <= 64,
    ensures
        pieces_upto(b, c, k).len() <= k,
        forall|j: int|
            0 <= j < pieces_upto(b, c, k).len() ==> {
                let p = #[trigger] pieces_upto(b, c, k)[j];
                &&& is_square(p.position as int)
                &&& b[p.position as int] == p
                &&& p.piece_color == c
            },
    decreases k,
{
    if k > 0 {
        lemma_pieces_upto(b, c, (k - 1) as nat);
        lemma_scan_square(k - 1);
    }
}

pub proof fn lemma_pieces_of(b: Seq<DynamicPiece>, c: PieceColor)
    requires
        board_ok(b),
    ensures
        pieces_of(b, c).len() <= 64,
        forall|j: int|
            0 <= j < pieces_of(b, c).len() ==> {
                let p = #[trigger] pieces_of(b, c)[j];
                &&& is_square(p.position as int)
                &&& b[p.position as int] == p
                &&& p.piece_color == c
            },
{
    lemma_pieces_upto(b, c, 64);
}

proof fn lemma_scan_stopped(s: Seq<char>, i: nat, n: nat)
    requires
        i <= n,
        scan(s, i).2,
    ensures
        scan(s, n) == scan(s, i),
    decreases n - i,
{
    if n > i {
        lemma_scan_stopped(s, i, (n - 1) as nat);
    }
}

// ---------------------------------------------------------------------------
// The position
// ---------------------------------------------------------------------------

/// A position: the cells, the pieces of each color in reading order, and
/// the text of the position, all kept in step.
pub struct Board {
    squares: Vec<DynamicPiece>,
    white_set: Vec<DynamicPiece>,
    black_set: Vec<DynamicPiece>,
    fen: String,
}

impl View for Board {
    type V = Seq<DynamicPiece>;

    closed spec fn view(&self) -> Seq<DynamicPiece> {
        self.squares@
    }
}

impl Board {
    /// The piece lists and the text agree with the cells.
    pub closed spec fn caches_ok(&self) -> bool {
        &&& self.white_set@ == pieces_of(self.squares@, PieceColor::White)
        &&& self.black_set@ == pieces_of(self.squares@, PieceColor::Black)
        &&& self.fen@ == fen_text(self.squares@)
    }

    pub open spec fn wf(&self) -> bool {
        board_ok(self@) && self.caches_ok()
    }

    /// The standard starting position.
    pub fn new() -> (r: Board)
        ensures
            r.wf(),
            r@ == parsed_board(start_fen()),
    {
        let mut board = Board {
            squares: empty_squares(),
            white_set: Vec::new(),
            black_set: Vec::new(),
            fen: String::new(),
        };
        let text = String::from_str("rnbqkbnr/pppppppp/8/8/8/8/PPPPPPPP/RNBQKBNR w KQkq - 0 1");
        board.init_board_from_fen(text);
        board
    }

    /// An independent copy of the position.
    pub fn copy(&self) -> (r: Board)
        requires
            self.wf(),
        ensures
            r.wf(),
            r@ == self@,
    {
        Board {
            squares: copy_pieces(&self.squares),
            white_set: copy_pieces(&self.white_set),
            black_set: copy_pieces(&self.black_set),
            fen: self.fen.clone(),
        }
    }

    /// The position's text: the placement field and a fixed suffix.
    pub fn get_fen(&self) -> (r: String)
        requires
            self.wf(),
        ensures
            r@ == fen_text(self@),
    {
        self.fen.clone()
    }

    pub fn get_piece(&self, index: usize) -> (r: DynamicPiece)
        requires
            self.wf(),
            index < 128,
        ensures
            r == self@[index as int],
    {
        self.squares[index]
    }

    /// Places a piece (or the empty marker) on a square, recording the
    /// square in the piece, then brings the piece lists and the text up to date.
    pub fn set_piece(&mut self, index: usize, piece: DynamicPiece)
        requires
            old(self).wf(),
            is_square(index as int),
            piece_ok(piece),
        ensures
            final(self).wf(),
            final(self)@ == old(self)@.update(
                index as int,
                DynamicPiece {
                    piece_type: piece.piece_type,
                    piece_color: piece.piece_color,
                    position: index,
                },
            ),
    {
        let mut placed = piece;
        placed.position = index;
        self.squares.set(index, placed);
        self.white_set = collect_pieces(&self.squares, PieceColor::White);
        self.black_set = collect_pieces(&self.squares, PieceColor::Black);
        self.fen = placement_text(&self.squares);
    }

    pub fn get_white_pieces(&self) -> (r: Vec<DynamicPiece>)
        requires
            self.wf(),
        ensures
            r@ == pieces_of(self@, PieceColor::White),
    {
        copy_pieces(&self.white_set)
    }

    pub fn get_black_pieces(&self) -> (r: Vec<DynamicPiece>)
        requires
            self.wf(),
        ensures
            r@ == pieces_of(self@, PieceColor::Black),
    {
        copy_pieces(&self.black_set)
    }

    /// Rewrites the position's text from the cells.
    pub fn update_fen(&mut self)
        requires
            old(self).wf(),
        ensures
            final(self).wf(),
            final(self)@ == old(self)@,
    {
        self.fen = placement_text(&self.squares);
    }

    /// Replaces the position by the one that a placement field describes.
    /// Reading stops at the first space; unknown characters are skipped.
    pub fn init_board_from_fen(&mut self, fen: String)
        ensures
            final(self).wf(),
            final(self)@ == parsed_board(fen@),
    {
        let mut squares = empty_squares();
        let text = fen.as_str();
        let len = text.unicode_len();
        let mut row: usize = 0;
        let mut file: usize = 0;
        let mut stopped = false;
        let mut i: usize = 0;
        while i < len && !stopped
            invariant
                len == fen@.len(),
                text@ == fen@,
                i <= len,
                row <= 8,
                file <= 8,
                board_ok(squares@),
                scan(fen@, i as nat) == (row as int, file as int, stopped, squares@),
            decreases len - i,
        {
            let ch = text.get_char(i);
            proof {
                assert(fen@[i as int] == ch);
            }
            if ch == ' ' {
                stopped = true;
            } else if ch == '/' {
                if row < 8 {
                    row = row + 1;
                }
                file = 0;
            } else {
                let skip = digit_of(ch);
                if skip > 0 {
                    file = if file + skip < 8 {
                        file + skip
                    } else {
                        8
                    };
                } else {
                    let (t, c) = piece_of_letter(ch);
                    if t != PieceType::Empty {
                        if row < 8 && file < 8 {
                            let s = (7 - row) * 16 + file;
                            proof {
                                lemma_square_coords(file as int, 7 - row);
                            }
                            squares.set(s, DynamicPiece { piece_type: t, piece_color: c, position: s });
                        }
                        if file < 8 {
                            file = file + 1;
                        }
                    }
                }
            }
            i = i + 1;
        }
        proof {
            if stopped {
                lemma_scan_stopped(fen@, i as nat, len as nat);
            }
        }
        self.white_set = collect_pieces(&squares, PieceColor::White);
        self.black_set = collect_pieces(&squares, PieceColor::Black);
        self.fen = placement_text(&squares);
        self.squares = squares;
    }

    /// The position after the piece on `old_position` moves to
    /// `new_position`. A piece standing there is captured: it leaves the
    /// board and, with it, its color's list. `self` is left as it was.
    pub fn simulate_move(&self, old_position: usize, new_position: usize) -> (r: Board)
        requires
            self.wf(),
            is_square(old_position as int),
            is_square(new_position as int),
        ensures
            r.wf(),
            r@ == apply_move(self@, old_position as int, new_position as int),
    {
        let mut simulated = self.copy();
        let moving = simulated.get_piece(old_position);
        simulated.set_piece(
            old_position,
            DynamicPiece {
                piece_type: PieceType::Empty,
                piece_color: PieceColor::NoColor,
                position: old_position,
            },
        );
        simulated.set_piece(new_position, moving);
        simulated
    }
}

// ---------------------------------------------------------------------------
// Helpers
// ---------------------------------------------------------------------------

fn empty_squares() -> (r: Vec<DynamicPiece>)
    ensures
        r@ == empty_board(),
        board_ok(r@),
{
    let mut squares: Vec<DynamicPiece> = Vec::new();
    let mut i: usize = 0;
    while i < 128
        invariant
            i <= 128,
            squares@.len() == i,
            forall|j: int| 0 <= j < i ==> #[trigger] squares@[j] == empty_piece(j),
        decreases 128 - i,
    {
        squares.push(
            DynamicPiece { piece_type: PieceType::Empty, piece_color: PieceColor::NoColor, position: i },
        );
        i = i + 1;
    }
    assert(squares@ =~= empty_board());
    squares
}

fn copy_pieces(v: &Vec<DynamicPiece>) -> (r: Vec<DynamicPiece>)
    ensures
        r@ == v@,
{
    let mut out: Vec<DynamicPiece> = Vec::new();
    let mut i: usize = 0;
    while i < v.len()
        invariant
            i <= v@.len(),
            out@ == v@.subrange(0, i as int),
        decreases v@.len() - i,
    {
        out.push(v[i]);
        i = i + 1;
        assert(out@ =~= v@.subrange(0, i as int));
    }
    assert(out@ =~= v@);
    out
}

fn collect_pieces(squares: &Vec<DynamicPiece>, color: PieceColor) -> (r: Vec<DynamicPiece>)
    requires
        board_ok(squares@),
    ensures
        r@ == pieces_of(squares@, color),
{
    let mut out: Vec<DynamicPiece> = Vec::new();
    let mut k: usize = 0;
    while k < 64
        invariant
            k <= 64,
            board_ok(squares@),
            out@ == pieces_upto(squares@, color, k as nat),
        decreases 64 - k,
    {
        proof {
            lemma_scan_square(k as int);
        }
        let p = squares[(7 - k / 8) * 16 + k % 8];
        if p.piece_color == color {
            out.push(p);
        }
        k = k + 1;
    }
    out
}

fn digit_of(ch: char) -> (r: usize)
    ensures
        r == digit_value(ch),
{
    if ch == '1' {
        1
    } else if ch == '2' {
        2
    } else if ch == '3' {
        3
    } else if ch == '4' {
        4
    } else if ch == '5' {
        5
    } else if ch == '6' {
        6
    } else if ch == '7' {
        7
    } else if ch == '8' {
        8
    } else {
        0
    }
}

fn piece_of_letter(ch: char) -> (r: (PieceType, PieceColor))
    ensures
        r == letter_piece(ch),
{
    if ch == 'P' {
        (PieceType::Pawn, PieceColor::White)
    } else if ch == 'N' {
        (PieceType::Knight, PieceColor::White)
    } else if ch == 'B' {
        (PieceType::Bishop, PieceColor::White)
    } else if ch == 'R' {
        (PieceType::Rook, PieceColor::White)
    } else if ch == 'Q' {
        (PieceType::Queen, PieceColor::White)
    } else if ch == 'K' {
        (PieceType::King, PieceColor::White)
    } else if ch == 'p' {
        (PieceType::Pawn, PieceColor::Black)
    } else if ch == 'n' {
        (PieceType::Knight, PieceColor::Black)
    } else if ch == 'b' {
        (PieceType::Bishop, PieceColor::Black)
    } else if ch == 'r' {
        (PieceType::Rook, PieceColor::Black)
    } else if ch == 'q' {
        (PieceType::Queen, PieceColor::Black)
    } else if ch == 'k' {
        (PieceType::King, PieceColor::Black)
    } else {
        (PieceType::Empty, PieceColor::NoColor)
    }
}

fn letter_text(t: PieceType, c: PieceColor) -> (r: &'static str)
    requires
        t != PieceType::Empty,
        c != PieceColor::NoColor,
    ensures
        r@ == seq![piece_letter(t, c)],
{
    proof {
        reveal_strlit("P");
        reveal_strlit("N");
        reveal_strlit("B");
        reveal_strlit("R");
        reveal_strlit("Q");
        reveal_strlit("K");
        reveal_strlit("p");
        reveal_strlit("n");
        reveal_strlit("b");
        reveal_strlit("r");
        reveal_strlit("q");
        reveal_strlit("k");
    }
    match (c, t) {
        (PieceColor::White, PieceType::Pawn) => "P",
        (PieceColor::White, PieceType::Knight) => "N",
        (PieceColor::White, PieceType::Bishop) => "B",
        (PieceColor::White, PieceType::Rook) => "R",
        (PieceColor::White, PieceType::Queen) => "Q",
        (PieceColor::White, PieceType::King) => "K",
        (PieceColor::Black, PieceType::Pawn) => "p",
        (PieceColor::Black, PieceType::Knight) => "n",
        (PieceColor::Black, PieceType::Bishop) => "b",
        (PieceColor::Black, PieceType::Rook) => "r",
        (PieceColor::Black, PieceType::Queen) => "q",
        (_, _) => "k",
    }
}

fn append_run(out: &mut String, run: usize)
    requires
        run <= 8,
    ensures
        final(out)@ == old(out)@ + run_text(run as int),
{
    proof {
        reveal_strlit("1");
        reveal_strlit("2");
        reveal_strlit("3");
        reveal_strlit("4");
        reveal_strlit("5");
        reveal_strlit("6");
        reveal_strlit("7");
        reveal_strlit("8");
    }
    if run == 0 {
        assert(old(out)@ + run_text(0) =~= old(out)@);
        return;
    }
    let digit: &str = if run == 1 {
        "1"
    } else if run == 2 {
        "2"
    } else if run == 3 {
        "3"
    } else if run == 4 {
        "4"
    } else if run == 5 {
        "5"
    } else if run == 6 {
        "6"
    } else if run == 7 {
        "7"
    } else {
        "8"
    };
    out.append(digit);
}

/// The text of a board: its placement field and the fixed suffix.
fn placement_text(squares: &Vec<DynamicPiece>) -> (r: String)
    requires
        board_ok(squares@),
    ensures
        r@ == fen_text(squares@),
{
    let ghost b = squares@;
    let mut out = String::new();
    let mut n: usize = 0;
    while n < 8
        invariant
            n <= 8,
            board_ok(b),
            squares@ == b,
            out@ == ranks_text(b, n as nat),
        decreases 8 - n,
    {
        let rank: usize = 7 - n;
        let ghost start = out@;
        let mut file: usize = 0;
        let mut run: usize = 0;
        while file < 8
            invariant
                n < 8,
                rank == 7 - n,
                file <= 8,
                run <= file,
                board_ok(b),
                squares@ == b,
                out@ + rank_text(b, rank as int, file as int, run as int) == start + rank_text(
                    b,
                    rank as int,
                    0,
                    0,
                ),
            decreases 8 - file,
        {
            let p = squares[rank * 16 + file];
            if p.piece_type == PieceType::Empty {
                run = run + 1;
            } else {
                let ghost before = out@;
                append_run(&mut out, run);
                out.append(letter_text(p.piece_type, p.piece_color));
                assert(before + rank_text(b, rank as int, file as int, run as int) =~= out@
                    + rank_text(b, rank as int, file + 1, 0));
                run = 0;
            }
            file = file + 1;
        }
        append_run(&mut out, run);
        if n < 7 {
            out.append("/");
            proof {
                reveal_strlit("/");
            }
        }
        n = n + 1;
        assert(out@ =~= ranks_text(b, n as nat));
    }
    out.append(" w KQkq - 0 1");
    proof {
        reveal_strlit(" w KQkq - 0 1");
    }
    assert(out@ =~= fen_text(b));
    out
}

} // verus!
