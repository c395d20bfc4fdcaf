use vstd::prelude::*;
use std::collections::HashMap;
use crate::board::{Board, board_ok, lemma_pieces_of, pieces_of};
use crate::piece::{DynamicPiece, PieceColor, PieceType};
use crate::square::{
    file_of, is_square, lemma_on_board_square, on_board, rank_of, square_at,
};

verus! {

// ---------------------------------------------------------------------------
// Move rules over a board model
// ---------------------------------------------------------------------------

pub open spec fn is_empty_at(b: Seq<DynamicPiece>, s: int) -> bool {
    b[s].piece_type == PieceType::Empty
}

/// `to` is one of the two squares diagonally ahead of `from`, `dir` being
/// the direction of travel along the ranks.
pub open spec fn pawn_diagonal(from: int, to: int, dir: int) -> bool {
    let f = file_of(from);
    let r = rank_of(from);
    &&& 0 <= r + dir < 8
    &&& (f > 0 && to == square_at(f - 1, r + dir)) || (f < 7 && to == square_at(f + 1, r + dir))
}

/// The piece on `from` may take the piece on `to`: the two differ in color,
/// `to` is not empty, and a pawn takes only diagonally forward.
pub open spec fn capturable(b: Seq<DynamicPiece>, from: int, to: int) -> bool {
    let p = b[from];
    let q = b[to];
    if p.piece_color == q.piece_color {
        false
    } else if q.piece_type == PieceType::Empty {
        false
    } else {
        match p.piece_type {
            PieceType::Pawn => if p.piece_color == PieceColor::White {
                pawn_diagonal(from, to, 1)
            } else {
                pawn_diagonal(from, to, -1)
            },
            PieceType::Empty => false,
            _ => true,
        }
    }
}

/// One fixed offset from `from`: kept if it stays on the board and the
/// square there is empty or holds a piece of the other color.
pub open spec fn step(b: Seq<DynamicPiece>, from: int, df: int, dr: int) -> Seq<usize> {
    let f = file_of(from) + df;
    let r = rank_of(from) + dr;
    let to = square_at(f, r);
    if on_board(f, r) && (is_empty_at(b, to) || capturable(b, from, to)) {
        seq![to as usize]
    } else {
        seq![]
    }
}

/// The squares reached from (f, r) by moving (df, dr) at a time: empty
/// squares, then the first occupied one if the piece on `from` may take it.
pub open spec fn ray(
    b: Seq<DynamicPiece>,
    from: int,
    f: int,
    r: int,
    df: int,
    dr: int,
    steps: nat,
) -> Seq<usize>
    decreases steps,
{
    if steps == 0 || !on_board(f + df, r + dr) {
        seq![]
    } else {
        let to = square_at(f + df, r + dr);
        if is_empty_at(b, to) {
            seq![to as usize] + ray(b, from, f + df, r + dr, df, dr, (steps - 1) as nat)
        } else if capturable(b, from, to) {
            seq![to as usize]
        } else {
            seq![]
        }
    }
}

pub open spec fn ray_from(b: Seq<DynamicPiece>, s: int, df: int, dr: int) -> Seq<usize> {
    ray(b, s, file_of(s), rank_of(s), df, dr, 7)
}

/// Up, down, left, right.
pub open spec fn straights(b: Seq<DynamicPiece>, s: int) -> Seq<usize> {
    ray_from(b, s, 0, 1) + ray_from(b, s, 0, -1) + ray_from(b, s, -1, 0) + ray_from(b, s, 1, 0)
}

/// Down-left, down-right, up-left, up-right.
pub open spec fn diagonals(b: Seq<DynamicPiece>, s: int) -> Seq<usize> {
    ray_from(b, s, -1, -1) + ray_from(b, s, 1, -1) + ray_from(b, s, -1, 1) + ray_from(b, s, 1, 1)
}

pub open spec fn knight_moves(b: Seq<DynamicPiece>, s: int) -> Seq<usize> {
    step(b, s, 1, 2) + step(b, s, -1, 2) + step(b, s, 2, 1) + step(b, s, -2, 1) + step(b, s, 1, -2)
        + step(b, s, -1, -2) + step(b, s, 2, -1) + step(b, s, -2, -1)
}

pub open spec fn king_moves(b: Seq<DynamicPiece>, s: int) -> Seq<usize> {
    step(b, s, 0, 1) + step(b, s, -1, 1) + step(b, s, 1, 1) + step(b, s, -1, 0) + step(b, s, 1, 0)
        + step(b, s, -1, -1) + step(b, s, 0, -1) + step(b, s, 1, -1)
}

/// A pawn moving `dir` along the ranks from `home`: one square ahead if
/// empty, two from home if both are empty, then the two diagonal captures.
pub open spec fn pawn_moves_dir(b: Seq<DynamicPiece>, s: int, dir: int, home: int) -> Seq<usize> {
    let f = file_of(s);
    let r = rank_of(s);
    let ahead = r + dir;
    let pushes = if 0 <= ahead < 8 && is_empty_at(b, square_at(f, ahead)) {
        seq![square_at(f, ahead) as usize] + if r == home && is_empty_at(
            b,
            square_at(f, ahead + dir),
        ) {
            seq![square_at(f, ahead + dir) as usize]
        } else {
            seq![]
        }
    } else {
        seq![]
    };
    let left = if f > 0 && 0 <= ahead < 8 && capturable(b, s, square_at(f - 1, ahead)) {
        seq![square_at(f - 1, ahead) as usize]
    } else {
        seq![]
    };
    let right = if f < 7 && 0 <= ahead < 8 && capturable(b, s, square_at(f + 1, ahead)) {
        seq![square_at(f + 1, ahead) as usize]
    } else {
        seq![]
    };
    pushes + left + right
}

pub open spec fn pawn_moves(b: Seq<DynamicPiece>, s: int) -> Seq<usize> {
    if b[s].piece_color == PieceColor::White {
        pawn_moves_dir(b, s, 1, 1)
    } else {
        pawn_moves_dir(b, s, -1, 6)
    }
}

/// The pseudo-legal destinations of the piece on `s`, in generation order.
pub open spec fn legal_moves(b: Seq<DynamicPiece>, s: int) -> Seq<usize> {
    match b[s].piece_type {
        PieceType::Pawn => pawn_moves(b, s),
        PieceType::Knight => knight_moves(b, s),
        PieceType::Bishop => diagonals(b, s),
        PieceType::Rook => straights(b, s),
        PieceType::Queen => straights(b, s) + diagonals(b, s),
        PieceType::King => king_moves(b, s),
        PieceType::Empty => seq![],
    }
}

pub open spec fn side_color(white: bool) -> PieceColor {
    if white {
        PieceColor::White
    } else {
        PieceColor::Black
    }
}

/// The moves of the piece on `o`, as (origin, destination) pairs.
pub open spec fn origin_moves(b: Seq<DynamicPiece>, o: int) -> Seq<(usize, usize)> {
    legal_moves(b, o).map_values(|d: usize| (o as usize, d))
}

/// The moves of the first k pieces of a list, piece by piece.
pub open spec fn moves_upto(b: Seq<DynamicPiece>, ps: Seq<DynamicPiece>, k: nat) -> Seq<(usize, usize)>
    decreases k,
{
    if k == 0 {
        seq![]
    } else {
        moves_upto(b, ps, (k - 1) as nat) + origin_moves(b, ps[k - 1].position as int)
    }
}

/// Every move of the side to move, its pieces taken in reading order.
pub open spec fn side_moves(b: Seq<DynamicPiece>, white: bool) -> Seq<(usize, usize)> {
    let ps = pieces_of(b, side_color(white));
    moves_upto(b, ps, ps.len())
}

// ---------------------------------------------------------------------------
// Lemmas
// ---------------------------------------------------------------------------

/// Two pieces of one color never take each other, and nothing takes an
/// empty square.
pub proof fn lemma_no_capture_of_own_color_or_empty(b: Seq<DynamicPiece>, from: int, to: int)
    ensures
        b[from].piece_color == b[to].piece_color ==> !capturable(b, from, to),
        b[to].piece_type == PieceType::Empty ==> !capturable(b, from, to),
{
}

pub open spec fn all_squares(s: Seq<usize>) -> bool {
    forall|j: int| 0 <= j < s.len() ==> is_square(#[trigger] s[j] as int)
}

pub open spec fn all_moves_on_squares(ms: Seq<(usize, usize)>) -> bool {
    forall|j: int|
        0 <= j < ms.len() ==> is_square((#[trigger] ms[j]).0 as int) && is_square(ms[j].1 as int)
}

proof fn lemma_all_squares_concat(x: Seq<usize>, y: Seq<usize>)
    requires
        all_squares(x),
        all_squares(y),
    ensures
        all_squares(x + y),
{
    assert forall|j: int| 0 <= j < (x + y).len() implies is_square(#[trigger] (x + y)[j] as int) by {
        if j >= x.len() {
            assert((x + y)[j] == y[j - x.len()]);
        }
    }
}

proof fn lemma_ray_squares(
    b: Seq<DynamicPiece>,
    from: int,
    f: int,
    r: int,
    df: int,
    dr: int,
    steps: nat,
)
    ensures
        all_squares(ray(b, from, f, r, df, dr, steps)),
    decreases steps,
{
    if steps > 0 && on_board(f + df, r + dr) {
        lemma_on_board_square(f + df, r + dr);
        lemma_ray_squares(b, from, f + df, r + dr, df, dr, (steps - 1) as nat);
        let to = square_at(f + df, r + dr);
        lemma_all_squares_concat(
            seq![to as usize],
            ray(b, from, f + df, r + dr, df, dr, (steps - 1) as nat),
        );
    }
}

proof fn lemma_step_squares(b: Seq<DynamicPiece>, s: int, df: int, dr: int)
    ensures
        all_squares(step(b, s, df, dr)),
{
    if on_board(file_of(s) + df, rank_of(s) + dr) {
        lemma_on_board_square(file_of(s) + df, rank_of(s) + dr);
    }
}

proof fn lemma_pawn_moves_squares(b: Seq<DynamicPiece>, s: int, dir: int, home: int)
    requires
        (dir == 1 && home == 1) || (dir == -1 && home == 6),
        is_square(s),
    ensures
        all_squares(pawn_moves_dir(b, s, dir, home)),
{
    let f = file_of(s);
    let r = rank_of(s);
    let ahead = r + dir;
    let second = if r == home && is_empty_at(b, square_at(f, ahead + dir)) {
        seq![square_at(f, ahead + dir) as usize]
    } else {
        seq![]
    };
    let pushes = if 0 <= ahead < 8 && is_empty_at(b, square_at(f, ahead)) {
        seq![square_at(f, ahead) as usize] + second
    } else {
        seq![]
    };
    let left = if f > 0 && 0 <= ahead < 8 && capturable(b, s, square_at(f - 1, ahead)) {
        seq![square_at(f - 1, ahead) as usize]
    } else {
        seq![]
    };
    let right = if f < 7 && 0 <= ahead < 8 && capturable(b, s, square_at(f + 1, ahead)) {
        seq![square_at(f + 1, ahead) as usize]
    } else {
        seq![]
    };
    if 0 <= ahead < 8 {
        lemma_on_board_square(f, ahead);
        if f > 0 {
            lemma_on_board_square(f - 1, ahead);
        }
        if f < 7 {
            lemma_on_board_square(f + 1, ahead);
        }
    }
    if r == home {
        lemma_on_board_square(f, ahead + dir);
    }
    assert(all_squares(second));
    if 0 <= ahead < 8 && is_empty_at(b, square_at(f, ahead)) {
        lemma_all_squares_concat(seq![square_at(f, ahead) as usize], second);
    }
    assert(all_squares(pushes));
    assert(all_squares(left));
    assert(all_squares(right));
    lemma_all_squares_concat(pushes, left);
    lemma_all_squares_concat(pushes + left, right);
    assert(pawn_moves_dir(b, s, dir, home) == pushes + left + right);
}

/// Every generated destination is a square of the board.
pub proof fn lemma_legal_moves_squares(b: Seq<DynamicPiece>, s: int)
    requires
        board_ok(b),
        0 <= s < 128,
    ensures
        all_squares(legal_moves(b, s)),
{
    assert forall|x: Seq<usize>, y: Seq<usize>|
        all_squares(x) && all_squares(y) implies #[trigger] all_squares(x + y) by {
        lemma_all_squares_concat(x, y);
    }
    assert forall|df: int, dr: int| #[trigger] all_squares(ray_from(b, s, df, dr)) by {
        lemma_ray_squares(b, s, file_of(s), rank_of(s), df, dr, 7);
    }
    assert forall|df: int, dr: int| #[trigger] all_squares(step(b, s, df, dr)) by {
        lemma_step_squares(b, s, df, dr);
    }
    if b[s].piece_type == PieceType::Pawn {
        lemma_pawn_moves_squares(b, s, 1, 1);
        lemma_pawn_moves_squares(b, s, -1, 6);
    }
}

/// Every move of a list of pieces on their squares starts and ends on a
/// square of the board.
proof fn lemma_moves_upto_squares(b: Seq<DynamicPiece>, ps: Seq<DynamicPiece>, k: nat)
    requires
        board_ok(b),
        k <= ps.len(),
        forall|j: int| 0 <= j < ps.len() ==> is_square(#[trigger] ps[j].position as int),
    ensures
        all_moves_on_squares(moves_upto(b, ps, k)),
    decreases k,
{
    if k > 0 {
        lemma_moves_upto_squares(b, ps, (k - 1) as nat);
        let o = ps[k - 1].position as int;
        assert(is_square(o));
        lemma_legal_moves_squares(b, o);
        let prev = moves_upto(b, ps, (k - 1) as nat);
        let mine = origin_moves(b, o);
        assert forall|j: int| 0 <= j < (prev + mine).len() implies is_square(
            (#[trigger] (prev + mine)[j]).0 as int,
        ) && is_square((prev + mine)[j].1 as int) by {
            if j >= prev.len() {
                assert((prev + mine)[j] == mine[j - prev.len()]);
                assert(legal_moves(b, o)[j - prev.len()] == mine[j - prev.len()].1);
            }
        }
    }
}

pub proof fn lemma_side_moves_squares(b: Seq<DynamicPiece>, white: bool)
    requires
        board_ok(b),
    ensures
        all_moves_on_squares(side_moves(b, white)),
{
    let ps = pieces_of(b, side_color(white));
    lemma_pieces_of(b, side_color(white));
    lemma_moves_upto_squares(b, ps, ps.len());
}

// ---------------------------------------------------------------------------
// Generation
// ---------------------------------------------------------------------------

impl Board {
    fn square_empty(&self, file: usize, rank: usize) -> (r: bool)
        requires
            self.wf(),
            on_board(file as int, rank as int),
        ensures
            r == is_empty_at(self@, square_at(file as int, rank as int)),
    {
        self.get_piece(rank * 16 + file).piece_type == PieceType::Empty
    }

    /// Whether the piece on `old_position` may take the piece on
    /// `new_position`. Board geometry is the caller's concern, but for a
    /// pawn, which takes only diagonally forward.
    pub fn is_capturable(&self, old_position: usize, new_position: usize) -> (r: bool)
        requires
            self.wf(),
            old_position < 128,
            new_position < 128,
        ensures
            r == capturable(self@, old_position as int, new_position as int),
    {
        let mover = self.get_piece(old_position);
        let target = self.get_piece(new_position);
        if mover.piece_color == target.piece_color {
            return false;
        }
        if target.piece_type == PieceType::Empty {
            return false;
        }
        match mover.piece_type {
            PieceType::Pawn => {
                let f = old_position % 16;
                let r = old_position / 16;
                if mover.piece_color == PieceColor::White {
                    r < 7 && ((f > 0 && new_position == (r + 1) * 16 + f - 1) || (f < 7
                        && new_position == (r + 1) * 16 + f + 1))
                } else {
                    r > 0 && ((f > 0 && new_position == (r - 1) * 16 + f - 1) || (f < 7
                        && new_position == (r - 1) * 16 + f + 1))
                }
            },
            PieceType::Empty => false,
            _ => true,
        }
    }

    /// Adds the square at a fixed offset from `from` if it is on the board
    /// and empty or held by the other color.
    fn add_step(&self, list: &mut Vec<usize>, from: usize, df: i64, dr: i64)
        requires
            self.wf(),
            is_square(from as int),
            -2 <= df <= 2,
            -2 <= dr <= 2,
        ensures
            final(list)@ == old(list)@ + step(self@, from as int, df as int, dr as int),
    {
        let f = (from % 16) as i64 + df;
        let r = (from / 16) as i64 + dr;
        if 0 <= f && f < 8 && 0 <= r && r < 8 {
            let to = (r as usize) * 16 + f as usize;
            if self.square_empty(f as usize, r as usize) || self.is_capturable(from, to) {
                list.push(to);
            }
        }
        assert(list@ =~= old(list)@ + step(self@, from as int, df as int, dr as int));
    }

    /// Adds the current square of a ray if it is empty, or if it holds a
    /// piece that the piece at the origin may take. Returns whether the ray
    /// goes on.
    fn add_position_if_valid(
        &self,
        list: &mut Vec<usize>,
        origin_file: usize,
        origin_rank: usize,
        current_file: usize,
        current_rank: usize,
    ) -> (r: bool)
        requires
            self.wf(),
            on_board(origin_file as int, origin_rank as int),
            on_board(current_file as int, current_rank as int),
        ensures
            ({
                let from = square_at(origin_file as int, origin_rank as int);
                let to = square_at(current_file as int, current_rank as int);
                if is_empty_at(self@, to) {
                    r && final(list)@ == old(list)@.push(to as usize)
                } else {
                    !r && final(list)@ == old(list)@ + if capturable(self@, from, to) {
                        seq![to as usize]
                    } else {
                        seq![]
                    }
                }
            }),
    {
        let to = current_rank * 16 + current_file;
        if self.square_empty(current_file, current_rank) {
            list.push(to);
            true
        } else {
            if self.is_capturable(origin_rank * 16 + origin_file, to) {
                list.push(to);
            }
            assert(list@ =~= old(list)@ + if capturable(
                self@,
                square_at(origin_file as int, origin_rank as int),
                to as int,
            ) {
                seq![to as usize]
            } else {
                seq![]
            });
            false
        }
    }

    /// Adds the squares of the ray from (file, rank) in direction (df, dr).
    fn cast_ray(&self, list: &mut Vec<usize>, file: usize, rank: usize, df: i64, dr: i64)
        requires
            self.wf(),
            on_board(file as int, rank as int),
            -1 <= df <= 1,
            -1 <= dr <= 1,
        ensures
            final(list)@ == old(list)@ + ray_from(
                self@,
                square_at(file as int, rank as int),
                df as int,
                dr as int,
            ),
    {
        let ghost b = self@;
        let ghost from = square_at(file as int, rank as int);
        proof {
            lemma_on_board_square(file as int, rank as int);
        }
        let ghost target = old(list)@ + ray(b, from, file as int, rank as int, df as int, dr as int, 7);
        let mut cf: i64 = file as i64;
        let mut cr: i64 = rank as i64;
        let mut steps: usize = 7;
        loop
            invariant_except_break
                list@ + ray(b, from, cf as int, cr as int, df as int, dr as int, steps as nat)
                    == target,
            invariant
                self.wf(),
                b == self@,
                from == square_at(file as int, rank as int),
                on_board(file as int, rank as int),
                -1 <= df <= 1,
                -1 <= dr <= 1,
                on_board(cf as int, cr as int),
                steps <= 7,
            ensures
                list@ == target,
            decreases steps,
        {
            if steps == 0 {
                assert(list@ + seq![] =~= list@);
                break;
            }
            let nf = cf + df;
            let nr = cr + dr;
            if nf < 0 || nf >= 8 || nr < 0 || nr >= 8 {
                assert(list@ + seq![] =~= list@);
                break;
            }
            let ghost before = list@;
            let ghost to = square_at(nf as int, nr as int);
            let go_on = self.add_position_if_valid(list, file, rank, nf as usize, nr as usize);
            if !go_on {
                assert(list@ =~= target);
                break;
            }
            let ghost rest = ray(b, from, nf as int, nr as int, df as int, dr as int, (steps - 1) as nat);
            assert(before + (seq![to as usize] + rest) =~= list@ + rest);
            cf = nf;
            cr = nr;
            steps = steps - 1;
        }
    }

    /// The destinations of a rook on (file, rank): up, down, left, right.
    pub fn get_straights(&self, rank: usize, file: usize) -> (r: Vec<usize>)
        requires
            self.wf(),
            rank < 8,
            file < 8,
        ensures
            r@ == straights(self@, square_at(file as int, rank as int)),
    {
        let mut found = Vec::new();
        self.cast_ray(&mut found, file, rank, 0, 1);
        self.cast_ray(&mut found, file, rank, 0, -1);
        self.cast_ray(&mut found, file, rank, -1, 0);
        self.cast_ray(&mut found, file, rank, 1, 0);
        assert(found@ =~= straights(self@, square_at(file as int, rank as int)));
        found
    }

    /// The destinations of a bishop on (file, rank): down-left, down-right,
    /// up-left, up-right.
    pub fn get_diagonals(&self, rank: usize, file: usize) -> (r: Vec<usize>)
        requires
            self.wf(),
            rank < 8,
            file < 8,
        ensures
            r@ == diagonals(self@, square_at(file as int, rank as int)),
    {
        let mut found = Vec::new();
        self.cast_ray(&mut found, file, rank, -1, -1);
        self.cast_ray(&mut found, file, rank, 1, -1);
        self.cast_ray(&mut found, file, rank, -1, 1);
        self.cast_ray(&mut found, file, rank, 1, 1);
        assert(found@ =~= diagonals(self@, square_at(file as int, rank as int)));
        found
    }

    fn add_pawn_moves(&self, list: &mut Vec<usize>, from: usize, white: bool)
        requires
            self.wf(),
            is_square(from as int),
        ensures
            final(list)@ == old(list)@ + if white {
                pawn_moves_dir(self@, from as int, 1, 1)
            } else {
                pawn_moves_dir(self@, from as int, -1, 6)
            },
    {
        let f = from % 16;
        let r = from / 16;
        let ghost start = list@;
        if white {
            if r < 7 && self.square_empty(f, r + 1) {
                list.push((r + 1) * 16 + f);
                if r == 1 && self.square_empty(f, r + 2) {
                    list.push((r + 2) * 16 + f);
                }
            }
        } else {
            if r > 0 && self.square_empty(f, r - 1) {
                list.push((r - 1) * 16 + f);
                if r == 6 && self.square_empty(f, r - 2) {
                    list.push((r - 2) * 16 + f);
                }
            }
        }
        let ghost after_pushes = list@;
        let ahead_ok = if white {
            r < 7
        } else {
            r > 0
        };
        if ahead_ok {
            let ahead = if white {
                r + 1
            } else {
                r - 1
            };
            if f > 0 && self.is_capturable(from, ahead * 16 + f - 1) {
                list.push(ahead * 16 + f - 1);
            }
            if f < 7 && self.is_capturable(from, ahead * 16 + f + 1) {
                list.push(ahead * 16 + f + 1);
            }
        }
        assert(list@ =~= old(list)@ + if white {
            pawn_moves_dir(self@, from as int, 1, 1)
        } else {
            pawn_moves_dir(self@, from as int, -1, 6)
        });
    }

    /// The pseudo-legal destinations of the piece on `position`, in
    /// generation order; none for an empty square.
    pub fn get_legal_moves(&self, position: usize) -> (r: Vec<usize>)
        requires
            self.wf(),
            position < 128,
        ensures
            r@ == legal_moves(self@, position as int),
    {
        let piece = self.get_piece(position);
        let file = position % 16;
        let rank = position / 16;
        let mut found = Vec::new();
        match piece.piece_type {
            PieceType::Pawn => {
                self.add_pawn_moves(&mut found, position, piece.piece_color == PieceColor::White);
            },
            PieceType::Rook => {
                found = self.get_straights(rank, file);
            },
            PieceType::Bishop => {
                found = self.get_diagonals(rank, file);
            },
            PieceType::Queen => {
                found = self.get_straights(rank, file);
                let mut diagonal_moves = self.get_diagonals(rank, file);
                found.append(&mut diagonal_moves);
            },
            PieceType::King => {
                self.add_step(&mut found, position, 0, 1);
                self.add_step(&mut found, position, -1, 1);
                self.add_step(&mut found, position, 1, 1);
                self.add_step(&mut found, position, -1, 0);
                self.add_step(&mut found, position, 1, 0);
                self.add_step(&mut found, position, -1, -1);
                self.add_step(&mut found, position, 0, -1);
                self.add_step(&mut found, position, 1, -1);
            },
            PieceType::Knight => {
                self.add_step(&mut found, position, 1, 2);
                self.add_step(&mut found, position, -1, 2);
                self.add_step(&mut found, position, 2, 1);
                self.add_step(&mut found, position, -2, 1);
                self.add_step(&mut found, position, 1, -2);
                self.add_step(&mut found, position, -1, -2);
                self.add_step(&mut found, position, 2, -1);
                self.add_step(&mut found, position, -2, -1);
            },
            PieceType::Empty => {},
        }
        assert(found@ =~= legal_moves(self@, position as int));
        found
    }

    /// Every move of one side as (origin, destination) pairs: its pieces in
    /// reading order, each piece's destinations in generation order.
    pub fn get_move_list(&self, white_to_move: bool) -> (r: Vec<(usize, usize)>)
        requires
            self.wf(),
        ensures
            r@ == side_moves(self@, white_to_move),
    {
        let ghost b = self@;
        let pieces = if white_to_move {
            self.get_white_pieces()
        } else {
            self.get_black_pieces()
        };
        proof {
            lemma_pieces_of(b, side_color(white_to_move));
        }
        let mut moves: Vec<(usize, usize)> = Vec::new();
        let mut k: usize = 0;
        while k < pieces.len()
            invariant
                self.wf(),
                b == self@,
                k <= pieces@.len(),
                pieces@ == pieces_of(b, side_color(white_to_move)),
                forall|j: int|
                    0 <= j < pieces@.len() ==> is_square((#[trigger] pieces@[j]).position as int),
                moves@ == moves_upto(b, pieces@, k as nat),
            decreases pieces@.len() - k,
        {
            let origin = pieces[k].position;
            let dests = self.get_legal_moves(origin);
            let ghost base = moves@;
            let mut j: usize = 0;
            while j < dests.len()
                invariant
                    j <= dests@.len(),
                    dests@ == legal_moves(b, origin as int),
                    moves@ == base + origin_moves(b, origin as int).subrange(0, j as int),
                decreases dests@.len() - j,
            {
                moves.push((origin, dests[j]));
                j = j + 1;
                assert(moves@ =~= base + origin_moves(b, origin as int).subrange(0, j as int));
            }
            assert(origin_moves(b, origin as int).subrange(0, j as int) =~= origin_moves(
                b,
                origin as int,
            ));
            k = k + 1;
        }
        moves
    }

    /// The destinations of every piece of one side that has any, keyed by
    /// the piece's square.
    pub fn get_board_legal_moves(&self, white_to_move: bool) -> (r: HashMap<usize, Vec<usize>>)
        requires
            self.wf(),
        ensures
            forall|o: usize|
                #[trigger] r@.contains_key(o) <==> (exists|j: int|
                    0 <= j < pieces_of(self@, side_color(white_to_move)).len()
                        && pieces_of(self@, side_color(white_to_move))[j].position == o)
                    && legal_moves(self@, o as int).len() > 0,
            forall|o: usize| #[trigger]
                r@.contains_key(o) ==> r@[o]@ == legal_moves(self@, o as int),
    {
        broadcast use vstd::std_specs::hash::group_hash_axioms;

        let ghost b = self@;
        let pieces = if white_to_move {
            self.get_white_pieces()
        } else {
            self.get_black_pieces()
        };
        proof {
            lemma_pieces_of(b, side_color(white_to_move));
        }
        let mut all_moves: HashMap<usize, Vec<usize>> = HashMap::new();
        let mut k: usize = 0;
        while k < pieces.len()
            invariant
                self.wf(),
                b == self@,
                k <= pieces@.len(),
                pieces@ == pieces_of(b, side_color(white_to_move)),
                forall|j: int|
                    0 <= j < pieces@.len() ==> is_square((#[trigger] pieces@[j]).position as int),
                forall|o: usize|
                    #[trigger] all_moves@.contains_key(o) <==> (exists|j: int|
                        0 <= j < k && pieces@[j].position == o) && legal_moves(b, o as int).len()
                        > 0,
                forall|o: usize| #[trigger]
                    all_moves@.contains_key(o) ==> all_moves@[o]@ == legal_moves(b, o as int),
            decreases pieces@.len() - k,
        {
            let origin = pieces[k].position;
            let available = self.get_legal_moves(origin);
            if available.len() > 0 {
                all_moves.insert(origin, available);
            }
            assert forall|o: usize|
                (exists|j: int| 0 <= j < k + 1 && pieces@[j].position == o) && legal_moves(
                    b,
                    o as int,
                ).len() > 0 implies #[trigger] all_moves@.contains_key(o) by {
                let j = choose|j: int| 0 <= j < k + 1 && pieces@[j].position == o;
                if j < k {
                    assert(exists|j: int| 0 <= j < k && pieces@[j].position == o);
                }
            }
            k = k + 1;
        }
        all_moves
    }
}

} // verus!
