use vstd::prelude::*;
use crate::board::{
    ScanState, board_ok, digit_value, empty_board, fen_suffix, fen_text, letter_piece,
    parsed_board, piece_letter, placement, rank_text, ranks_text, run_text, scan, scan_step,
};
use crate::piece::{DynamicPiece, PieceType, empty_piece};
use crate::square::{digit_char, file_of, is_square, lemma_on_board_square, rank_of, square_at};

verus! {

/// The state after reading all of `t` from state `st`.
pub open spec fn scan_text(st: ScanState, t: Seq<char>) -> ScanState
    decreases t.len(),
{
    if t.len() == 0 {
        st
    } else {
        scan_step(scan_text(st, t.drop_last()), t.last())
    }
}

/// A board read up to row `row` (counted from the top) and file `file`:
/// the cells of `b` already read, empty cells elsewhere.
pub open spec fn partial(b: Seq<DynamicPiece>, row: int, file: int) -> Seq<DynamicPiece> {
    Seq::new(
        128,
        |i: int|
            if is_square(i) && (7 - rank_of(i) < row || (7 - rank_of(i) == row && file_of(i)
                < file)) {
                b[i]
            } else {
                empty_piece(i)
            },
    )
}

proof fn lemma_scan_prefix(s: Seq<char>, n: nat)
    requires
        n <= s.len(),
    ensures
        scan(s, n) == scan_text((0, 0, false, empty_board()), s.subrange(0, n as int)),
    decreases n,
{
    if n > 0 {
        lemma_scan_prefix(s, (n - 1) as nat);
        assert(s.subrange(0, n as int).drop_last() =~= s.subrange(0, n - 1));
    }
}

proof fn lemma_scan_concat(st: ScanState, x: Seq<char>, y: Seq<char>)
    ensures
        scan_text(st, x + y) == scan_text(scan_text(st, x), y),
    decreases y.len(),
{
    if y.len() == 0 {
        assert(x + y =~= x);
    } else {
        assert((x + y).drop_last() =~= x + y.drop_last());
        assert((x + y).last() == y.last());
        lemma_scan_concat(st, x, y.drop_last());
        assert(scan_text(st, x + y) == scan_step(scan_text(st, (x + y).drop_last()), (x + y).last()));
        assert(scan_text(scan_text(st, x), y) == scan_step(
            scan_text(scan_text(st, x), y.drop_last()),
            y.last(),
        ));
    }
}

proof fn lemma_scan_single(st: ScanState, ch: char)
    ensures
        scan_text(st, seq![ch]) == scan_step(st, ch),
{
    let t = seq![ch];
    assert(t.drop_last() =~= Seq::<char>::empty());
    assert(t.len() == 1);
    assert(t.last() == ch);
    assert(scan_text(st, t.drop_last()) == st);
    assert(scan_text(st, t) == scan_step(scan_text(st, t.drop_last()), t.last()));
}

proof fn lemma_scan_text_stopped(st: ScanState, t: Seq<char>)
    requires
        st.2,
    ensures
        scan_text(st, t) == st,
    decreases t.len(),
{
    if t.len() > 0 {
        lemma_scan_text_stopped(st, t.drop_last());
    }
}

proof fn lemma_empty_cell(b: Seq<DynamicPiece>, i: int)
    requires
        board_ok(b),
        0 <= i < 128,
        b[i].piece_type == PieceType::Empty,
    ensures
        b[i] == empty_piece(i),
{
}

/// Reading one rank's text, from the file where its pending run of empty
/// squares began, fills that rank.
proof fn lemma_scan_rank(b: Seq<DynamicPiece>, row: int, file: int, run: int)
    requires
        board_ok(b),
        0 <= row < 8,
        0 <= run <= file <= 8,
    ensures
        scan_text((row, file - run, false, partial(b, row, file)), rank_text(b, 7 - row, file, run))
            == (row, 8int, false, partial(b, row, 8)),
    decreases 8 - file,
{
    let rank = 7 - row;
    let st = (row, file - run, false, partial(b, row, file));
    if file >= 8 {
        if run > 0 {
            lemma_scan_single(st, digit_char(run));
        }
    } else {
        let s = square_at(file, rank);
        lemma_on_board_square(file, rank);
        let p = b[s];
        if p.piece_type == PieceType::Empty {
            lemma_empty_cell(b, s);
            assert(partial(b, row, file) =~= partial(b, row, file + 1));
            lemma_scan_rank(b, row, file + 1, run + 1);
        } else {
            let digits = run_text(run);
            let letter = seq![piece_letter(p.piece_type, p.piece_color)];
            let rest = rank_text(b, rank, file + 1, 0);
            let mid = (row, file, false, partial(b, row, file));
            if run > 0 {
                lemma_scan_single(st, digit_char(run));
            } else {
                assert(digits =~= Seq::<char>::empty());
            }
            assert(scan_text(st, digits) == mid);
            lemma_scan_single(mid, piece_letter(p.piece_type, p.piece_color));
            assert(letter_piece(piece_letter(p.piece_type, p.piece_color)) == (
                p.piece_type,
                p.piece_color,
            ));
            assert(scan_step(mid, piece_letter(p.piece_type, p.piece_color)).3 =~= partial(
                b,
                row,
                file + 1,
            ));
            lemma_scan_rank(b, row, file + 1, 0);
            lemma_scan_concat(st, digits, letter);
            lemma_scan_concat(st, digits + letter, rest);
            assert(rank_text(b, rank, file, run) == digits + letter + rest);
        }
    }
}

proof fn lemma_scan_ranks(b: Seq<DynamicPiece>, n: nat)
    requires
        board_ok(b),
        n <= 8,
    ensures
        n < 8 ==> scan_text((0, 0, false, empty_board()), ranks_text(b, n)) == (
            n as int,
            0int,
            false,
            partial(b, n as int, 0),
        ),
        n == 8 ==> scan_text((0, 0, false, empty_board()), ranks_text(b, n)) == (
            7int,
            8int,
            false,
            partial(b, 7, 8),
        ),
    decreases n,
{
    let init = (0int, 0int, false, empty_board());
    if n == 0 {
        assert(partial(b, 0, 0) =~= empty_board());
    } else {
        lemma_scan_ranks(b, (n - 1) as nat);
        let row = n - 1;
        let before = ranks_text(b, (n - 1) as nat);
        let body = rank_text(b, 8 - n, 0, 0);
        let sep: Seq<char> = if n < 8 {
            seq!['/']
        } else {
            seq![]
        };
        lemma_scan_rank(b, row, 0, 0);
        lemma_scan_concat(init, before, body);
        lemma_scan_concat(init, before + body, sep);
        let done = (row, 8int, false, partial(b, row, 8));
        if n < 8 {
            lemma_scan_single(done, '/');
            assert(partial(b, row, 8) =~= partial(b, n as int, 0));
        }
        assert(ranks_text(b, n) == before + body + sep);
    }
}

/// Reading back the placement field of a position, with or without the
/// suffix that follows it, gives that position.
pub proof fn lemma_placement_round_trip(b: Seq<DynamicPiece>)
    requires
        board_ok(b),
    ensures
        parsed_board(placement(b)) == b,
        parsed_board(fen_text(b)) == b,
{
    let init = (0int, 0int, false, empty_board());
    lemma_scan_ranks(b, 8);
    assert(partial(b, 7, 8) =~= b);
    let p = placement(b);
    lemma_scan_prefix(p, p.len());
    assert(p.subrange(0, p.len() as int) =~= p);
    let f = fen_text(b);
    lemma_scan_prefix(f, f.len());
    assert(f.subrange(0, f.len() as int) =~= f);
    let done = (7int, 8int, false, partial(b, 7, 8));
    let suffix = fen_suffix();
    let rest = suffix.subrange(1, suffix.len() as int);
    assert(suffix =~= seq![' '] + rest);
    lemma_scan_single(done, ' ');
    lemma_scan_text_stopped(scan_step(done, ' '), rest);
    lemma_scan_concat(done, seq![' '], rest);
    lemma_scan_concat(init, p, suffix);
}

/// Exporting, importing and exporting again gives the exported text back.
pub proof fn lemma_placement_text_stable(b: Seq<DynamicPiece>)
    requires
        board_ok(b),
    ensures
        placement(parsed_board(placement(b))) == placement(b),
        fen_text(parsed_board(fen_text(b))) == fen_text(b),
{
    lemma_placement_round_trip(b);
}

} // verus!
