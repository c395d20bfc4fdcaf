use vstd::prelude::*;
use vstd::string::*;

verus! {

/// A square index addresses the board: below 128, with a file in 0..8.
pub open spec fn is_square(s: int) -> bool {
    0 <= s < 128 && s % 16 < 8
}

pub open spec fn on_board(file: int, rank: int) -> bool {
    0 <= file < 8 && 0 <= rank < 8
}

pub open spec fn square_at(file: int, rank: int) -> int {
    rank * 16 + file
}

pub open spec fn file_of(s: int) -> int {
    s % 16
}

pub open spec fn rank_of(s: int) -> int {
    s / 16
}

/// The letter a..h of a file.
pub open spec fn file_letter(file: int) -> char {
    if file == 0 {
        'a'
    } else if file == 1 {
        'b'
    } else if file == 2 {
        'c'
    } else if file == 3 {
        'd'
    } else if file == 4 {
        'e'
    } else if file == 5 {
        'f'
    } else if file == 6 {
        'g'
    } else {
        'h'
    }
}

/// The decimal digit of a number in 0..10.
pub open spec fn digit_char(n: int) -> char {
    if n == 0 {
        '0'
    } else if n == 1 {
        '1'
    } else if n == 2 {
        '2'
    } else if n == 3 {
        '3'
    } else if n == 4 {
        '4'
    } else if n == 5 {
        '5'
    } else if n == 6 {
        '6'
    } else if n == 7 {
        '7'
    } else if n == 8 {
        '8'
    } else {
        '9'
    }
}

pub proof fn lemma_square_coords(file: int, rank: int)
    requires
        0 <= file < 16,
        0 <= rank,
    ensures
        file_of(square_at(file, rank)) == file,
        rank_of(square_at(file, rank)) == rank,
{
    assert((rank * 16 + file) % 16 == file) by (nonlinear_arith)
        requires 0 <= file < 16, 0 <= rank;
    assert((rank * 16 + file) / 16 == rank) by (nonlinear_arith)
        requires 0 <= file < 16, 0 <= rank;
}

pub proof fn lemma_on_board_square(file: int, rank: int)
    requires
        on_board(file, rank),
    ensures
        is_square(square_at(file, rank)),
        file_of(square_at(file, rank)) == file,
        rank_of(square_at(file, rank)) == rank,
{
    lemma_square_coords(file, rank);
}

/// The square index of a file and a rank.
pub fn file_rank_to_hex(file: usize, rank: usize) -> (r: usize)
    requires
        rank * 16 + file <= usize::MAX,
    ensures
        r == square_at(file as int, rank as int),
{
    rank * 16 + file
}

/// The file and the rank of a square index.
pub fn file_rank_from_hex(position: usize) -> (r: (usize, usize))
    ensures
        r.0 == file_of(position as int),
        r.1 == rank_of(position as int),
{
    (position % 16, position / 16)
}

/// The algebraic name of a square, such as "e4".
pub fn hex_to_chess_notation(position: usize) -> (r: String)
    requires
        is_square(position as int),
    ensures
        r@ == seq![file_letter(file_of(position as int)), digit_char(rank_of(position as int) + 1)],
{
    let mut name = file_to_chess_notation(position);
    let rank = position / 16 + 1;
    let digit: &str = if rank == 1 {
        "1"
    } else if rank == 2 {
        "2"
    } else if rank == 3 {
        "3"
    } else if rank == 4 {
        "4"
    } else if rank == 5 {
        "5"
    } else if rank == 6 {
        "6"
    } else if rank == 7 {
        "7"
    } else {
        "8"
    };
    proof {
        reveal_strlit("1");
        reveal_strlit("2");
        reveal_strlit("3");
        reveal_strlit("4");
        reveal_strlit("5");
        reveal_strlit("6");
        reveal_strlit("7");
        reveal_strlit("8");
    }
    name.append(digit);
    name
}

fn file_to_chess_notation(position: usize) -> (r: String)
    requires
        file_of(position as int) < 8,
    ensures
        r@ == seq![file_letter(file_of(position as int))],
{
    let file = position % 16;
    let letter: &str = if file == 0 {
        "a"
    } else if file == 1 {
        "b"
    } else if file == 2 {
        "c"
    } else if file == 3 {
        "d"
    } else if file == 4 {
        "e"
    } else if file == 5 {
        "f"
    } else if file == 6 {
        "g"
    } else {
        "h"
    };
    proof {
        reveal_strlit("a");
        reveal_strlit("b");
        reveal_strlit("c");
        reveal_strlit("d");
        reveal_strlit("e");
        reveal_strlit("f");
        reveal_strlit("g");
        reveal_strlit("h");
    }
    String::from_str(letter)
}

} // verus!
