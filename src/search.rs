use vstd::prelude::*;
use crate::board::{Board, apply_move, lemma_pieces_of, pieces_of};
use crate::movegen::{all_moves_on_squares, lemma_side_moves_squares, side_moves};
use crate::piece::{DynamicPiece, PieceColor, PieceType};

verus! {

// ---------------------------------------------------------------------------
// Evaluation
// ---------------------------------------------------------------------------

/// Material weight of a piece kind; the king counts for nothing.
pub open spec fn weight(t: PieceType) -> int {
    match t {
        PieceType::Pawn => 1,
        PieceType::Knight => 3,
        PieceType::Bishop => 3,
        PieceType::Rook => 5,
        PieceType::Queen => 9,
        _ => 0,
    }
}

pub open spec fn material(ps: Seq<DynamicPiece>) -> int
    decreases ps.len(),
{
    if ps.len() == 0 {
        0
    } else {
        material(ps.drop_last()) + weight(ps.last().piece_type)
    }
}

/// White's material minus Black's.
pub open spec fn evaluation(b: Seq<DynamicPiece>) -> int {
    material(pieces_of(b, PieceColor::White)) - material(pieces_of(b, PieceColor::Black))
}

proof fn lemma_material_bounds(ps: Seq<DynamicPiece>)
    ensures
        0 <= material(ps) <= 9 * ps.len(),
    decreases ps.len(),
{
    if ps.len() > 0 {
        lemma_material_bounds(ps.drop_last());
    }
}

fn piece_weight(t: PieceType) -> (r: isize)
    ensures
        r == weight(t),
{
    match t {
        PieceType::Pawn => 1,
        PieceType::Knight => 3,
        PieceType::Bishop => 3,
        PieceType::Rook => 5,
        PieceType::Queen => 9,
        _ => 0,
    }
}

fn material_of(pieces: &Vec<DynamicPiece>) -> (r: isize)
    requires
        pieces@.len() <= 64,
    ensures
        r == material(pieces@),
{
    let mut total: isize = 0;
    let mut i: usize = 0;
    while i < pieces.len()
        invariant
            i <= pieces@.len(),
            pieces@.len() <= 64,
            total == material(pieces@.subrange(0, i as int)),
        decreases pieces@.len() - i,
    {
        proof {
            lemma_material_bounds(pieces@.subrange(0, i as int));
            assert(pieces@.subrange(0, i + 1).drop_last() =~= pieces@.subrange(0, i as int));
        }
        total = total + piece_weight(pieces[i].piece_type);
        i = i + 1;
    }
    assert(pieces@.subrange(0, i as int) =~= pieces@);
    total
}

/// The material balance of a position: White's weights minus Black's.
pub fn evaluate(board: &Board) -> (r: isize)
    requires
        board.wf(),
    ensures
        r == evaluation(board@),
{
    let whites = board.get_white_pieces();
    let blacks = board.get_black_pieces();
    proof {
        lemma_pieces_of(board@, PieceColor::White);
        lemma_pieces_of(board@, PieceColor::Black);
        lemma_material_bounds(whites@);
        lemma_material_bounds(blacks@);
    }
    let white_weight = material_of(&whites);
    let black_weight = material_of(&blacks);
    white_weight - black_weight
}

// ---------------------------------------------------------------------------
// The search tree
// ---------------------------------------------------------------------------

/// The starting value of a fold, before any move has been scored.
pub open spec fn sentinel(maximizing: bool) -> int {
    if maximizing {
        isize::MIN as int
    } else {
        isize::MAX as int
    }
}

/// The minimax value of a position: its evaluation at depth 0 or when the
/// side to move has no move, else the best reply value for that side.
pub open spec fn minimax(b: Seq<DynamicPiece>, depth: nat, maximizing: bool) -> int
    decreases depth, 1nat, 0nat,
{
    if depth == 0 {
        evaluation(b)
    } else {
        let ms = side_moves(b, maximizing);
        if ms.len() == 0 {
            evaluation(b)
        } else {
            best_score(b, ms, ms.len(), depth, maximizing)
        }
    }
}

/// The best value among the first n moves of `ms`, each scored one ply
/// deeper with the other side to move.
pub open spec fn best_score(
    b: Seq<DynamicPiece>,
    ms: Seq<(usize, usize)>,
    n: nat,
    depth: nat,
    maximizing: bool,
) -> int
    decreases depth, 0nat, n,
{
    if depth == 0 || n == 0 {
        sentinel(maximizing)
    } else {
        let prev = best_score(b, ms, (n - 1) as nat, depth, maximizing);
        let m = ms[n - 1];
        let score = minimax(apply_move(b, m.0 as int, m.1 as int), (depth - 1) as nat, !maximizing);
        if maximizing {
            if score > prev {
                score
            } else {
                prev
            }
        } else {
            if score < prev {
                score
            } else {
                prev
            }
        }
    }
}

/// How many positions a search of this depth evaluates.
pub open spec fn leaf_count(b: Seq<DynamicPiece>, depth: nat, maximizing: bool) -> nat
    decreases depth, 1nat, 0nat,
{
    if depth == 0 {
        1
    } else {
        let ms = side_moves(b, maximizing);
        if ms.len() == 0 {
            1
        } else {
            leaf_sum(b, ms, ms.len(), depth, maximizing)
        }
    }
}

pub open spec fn leaf_sum(
    b: Seq<DynamicPiece>,
    ms: Seq<(usize, usize)>,
    n: nat,
    depth: nat,
    maximizing: bool,
) -> nat
    decreases depth, 0nat, n,
{
    if depth == 0 || n == 0 {
        0
    } else {
        let m = ms[n - 1];
        leaf_sum(b, ms, (n - 1) as nat, depth, maximizing) + leaf_count(
            apply_move(b, m.0 as int, m.1 as int),
            (depth - 1) as nat,
            !maximizing,
        )
    }
}

/// A count that stops at the largest `usize`.
pub open spec fn saturate(n: nat) -> nat {
    if n > usize::MAX {
        usize::MAX as nat
    } else {
        n
    }
}

/// Counts the positions that a search evaluates.
pub struct PositionCounter {
    positions: usize,
}

impl View for PositionCounter {
    type V = nat;

    closed spec fn view(&self) -> nat {
        self.positions as nat
    }
}

impl PositionCounter {
    pub fn new() -> (r: PositionCounter)
        ensures
            r@ == 0,
    {
        PositionCounter { positions: 0 }
    }

    /// Counts one more position.
    pub fn add(&mut self)
        ensures
            final(self)@ == saturate((old(self)@ + 1) as nat),
    {
        if self.positions < usize::MAX {
            self.positions = self.positions + 1;
        }
    }

    pub fn positions(&self) -> (r: usize)
        ensures
            r == self@,
    {
        self.positions
    }

    pub proof fn lemma_bounded(&self)
        ensures
            self@ <= usize::MAX,
    {
    }
}

/// Fixed-depth minimax without pruning: every pseudo-legal move of the side
/// to move is played on its own copy of the position and searched one ply
/// less deep. A position is evaluated at depth 0, and also when the side to
/// move has no move, so no sentinel value is ever returned. Each evaluation
/// is counted.
pub fn search(
    board: &Board,
    depth: usize,
    maximizing_player: bool,
    position_counter: &mut PositionCounter,
) -> (r: isize)
    requires
        board.wf(),
    ensures
        r == minimax(board@, depth as nat, maximizing_player),
        final(position_counter)@ == saturate(
            (old(position_counter)@ + leaf_count(board@, depth as nat, maximizing_player)) as nat,
        ),
    decreases depth,
{
    if depth == 0 {
        position_counter.add();
        return evaluate(board);
    }
    let moves = board.get_move_list(maximizing_player);
    if moves.len() == 0 {
        position_counter.add();
        return evaluate(board);
    }
    proof {
        lemma_side_moves_squares(board@, maximizing_player);
        position_counter.lemma_bounded();
    }
    let ghost c0 = position_counter@;
    let mut best: isize = if maximizing_player {
        isize::MIN
    } else {
        isize::MAX
    };
    let mut i: usize = 0;
    while i < moves.len()
        invariant
            board.wf(),
            depth > 0,
            moves@ == side_moves(board@, maximizing_player),
            moves@.len() > 0,
            all_moves_on_squares(moves@),
            i <= moves@.len(),
            best as int == best_score(board@, moves@, i as nat, depth as nat, maximizing_player),
            position_counter@ == saturate(
                (c0 + leaf_sum(board@, moves@, i as nat, depth as nat, maximizing_player)) as nat,
            ),
        decreases moves@.len() - i,
    {
        let (from, to) = moves[i];
        let child = board.simulate_move(from, to);
        let score = search(&child, depth - 1, !maximizing_player, position_counter);
        if maximizing_player {
            if score > best {
                best = score;
            }
        } else {
            if score < best {
                best = score;
            }
        }
        i = i + 1;
    }
    best
}

// ---------------------------------------------------------------------------
// Laws of the search tree
// ---------------------------------------------------------------------------

proof fn lemma_leaf_sum_one_ply(b: Seq<DynamicPiece>, ms: Seq<(usize, usize)>, n: nat, m: bool)
    requires
        n <= ms.len(),
    ensures
        leaf_sum(b, ms, n, 1, m) == n,
    decreases n,
{
    if n > 0 {
        lemma_leaf_sum_one_ply(b, ms, (n - 1) as nat, m);
        let mv = ms[n - 1];
        let child = apply_move(b, mv.0 as int, mv.1 as int);
        assert(leaf_count(child, 0, !m) == 1);
        assert(leaf_sum(b, ms, n, 1, m) == leaf_sum(b, ms, (n - 1) as nat, 1, m) + leaf_count(
            child,
            0,
            !m,
        ));
    }
}

/// One ply deep, a search evaluates one position per move of the side to
/// move (and the position itself when there is none).
pub proof fn lemma_one_ply_leaf_count(b: Seq<DynamicPiece>, maximizing: bool)
    ensures
        side_moves(b, maximizing).len() > 0 ==> leaf_count(b, 1, maximizing) == side_moves(
            b,
            maximizing,
        ).len(),
        side_moves(b, maximizing).len() == 0 ==> leaf_count(b, 1, maximizing) == 1,
{
    let ms = side_moves(b, maximizing);
    lemma_leaf_sum_one_ply(b, ms, ms.len(), maximizing);
}

proof fn lemma_leaf_sum_two_ply(
    b: Seq<DynamicPiece>,
    ms: Seq<(usize, usize)>,
    n: nat,
    m: bool,
    replies: nat,
)
    requires
        n <= ms.len(),
        replies > 0,
        forall|i: int|
            0 <= i < ms.len() ==> side_moves(
                apply_move(b, (#[trigger] ms[i]).0 as int, ms[i].1 as int),
                !m,
            ).len() == replies,
    ensures
        leaf_sum(b, ms, n, 2, m) == n * replies,
    decreases n,
{
    if n > 0 {
        lemma_leaf_sum_two_ply(b, ms, (n - 1) as nat, m, replies);
        let mv = ms[n - 1];
        let child = apply_move(b, mv.0 as int, mv.1 as int);
        assert(side_moves(child, !m).len() == replies);
        lemma_one_ply_leaf_count(child, !m);
        assert(leaf_sum(b, ms, n, 2, m) == leaf_sum(b, ms, (n - 1) as nat, 2, m) + leaf_count(
            child,
            1,
            !m,
        ));
        assert(leaf_count(child, 1, !m) == replies);
        assert(leaf_sum(b, ms, (n - 1) as nat, 2, m) == (n - 1) * replies);
        assert((n - 1) * replies + replies == n * replies) by (nonlinear_arith);
    } else {
        assert(leaf_sum(b, ms, 0, 2, m) == 0);
        assert(0 * replies == 0);
    }
}

/// With no pruning, a search two plies deep evaluates every reply to every
/// move: where each of the n moves leaves the other side k replies, it
/// evaluates n * k positions.
pub proof fn lemma_two_ply_leaf_count(b: Seq<DynamicPiece>, maximizing: bool, replies: nat)
    requires
        side_moves(b, maximizing).len() > 0,
        replies > 0,
        forall|i: int|
            0 <= i < side_moves(b, maximizing).len() ==> side_moves(
                apply_move(
                    b,
                    (#[trigger] side_moves(b, maximizing)[i]).0 as int,
                    side_moves(b, maximizing)[i].1 as int,
                ),
                !maximizing,
            ).len() == replies,
    ensures
        leaf_count(b, 2, maximizing) == side_moves(b, maximizing).len() * replies,
{
    let ms = side_moves(b, maximizing);
    lemma_leaf_sum_two_ply(b, ms, ms.len(), maximizing, replies);
}

} // verus!
