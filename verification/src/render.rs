//! Text rendering of boards: one character per cell, `.` for untouched
//! water, `o` for a miss, `X` for a hit, and `S` for a ship cell when
//! the board's own ships are revealed.

use crate::board::CellState;
use crate::board::GameState;
use crate::board::Position;
use crate::board::cell_at;
use crate::board::ship_covers;
use vstd::prelude::*;

verus! {

/// The decimal digit character for `d`.
pub open spec fn digit_char(d: int) -> char {
    if d == 0 {
        '0'
    } else if d == 1 {
        '1'
    } else if d == 2 {
        '2'
    } else if d == 3 {
        '3'
    } else if d == 4 {
        '4'
    } else if d == 5 {
        '5'
    } else if d == 6 {
        '6'
    } else if d == 7 {
        '7'
    } else if d == 8 {
        '8'
    } else {
        '9'
    }
}

/// Does any placed ship cover the cell `(x, y)`?
pub open spec fn spec_covered(s: GameState, x: int, y: int) -> bool {
    exists|i: int| 0 <= i < s.ships@.len() && ship_covers(#[trigger] s.ships@[i], x, y)
}

/// The character shown for the cell `(x, y)`.
pub open spec fn cell_char(s: GameState, x: int, y: int, reveal: bool) -> char {
    match cell_at(s, x, y) {
        CellState::Empty => if reveal && spec_covered(s, x, y) {
            'S'
        } else {
            '.'
        },
        CellState::Miss => 'o',
        CellState::Hit => 'X',
    }
}

/// Character `col` of line `line` of one rendered board, newlines
/// excluded: a header line of column labels, then one line per row with
/// its row label, every label and cell three characters wide.
pub open spec fn side_char(s: GameState, reveal: bool, line: int, col: int) -> char {
    if line == 0 {
        if col < 3 {
            ' '
        } else if (col - 3) % 3 == 1 {
            digit_char((col - 3) / 3)
        } else {
            ' '
        }
    } else {
        if col == 0 {
            ' '
        } else if col == 1 {
            digit_char(line - 1)
        } else if col == 2 {
            ' '
        } else if (col - 3) % 3 == 1 {
            cell_char(s, (col - 3) / 3, line - 1, reveal)
        } else {
            ' '
        }
    }
}

/// The full rendering of one board: eleven lines of 33 characters and a
/// newline each.
pub open spec fn board_str(s: GameState, reveal: bool) -> Seq<char> {
    Seq::new(
        374,
        |k: int|
            if k % 34 == 33 {
                '\n'
            } else {
                side_char(s, reveal, k / 34, k % 34)
            },
    )
}

/// The rendering of two boards side by side, four spaces between them;
/// the right board never reveals its ships.
pub open spec fn dual_str(left: GameState, right: GameState, reveal_left: bool) -> Seq<char> {
    Seq::new(
        781,
        |k: int|
            {
                let line = k / 71;
                let col = k % 71;
                if col == 70 {
                    '\n'
                } else if col < 33 {
                    side_char(left, reveal_left, line, col)
                } else if col < 37 {
                    ' '
                } else {
                    side_char(right, false, line, col - 37)
                }
            },
    )
}

/// Does any placed ship cover `p`?
fn covered_exec(s: &GameState, p: Position) -> (r: bool)
    ensures
        r == spec_covered(*s, p.x as int, p.y as int),
{
    let n = s.ships.len();
    for i in 0..n
        invariant
            n == s.ships@.len(),
            forall|j: int|
                0 <= j < i ==> !ship_covers(#[trigger] s.ships@[j], p.x as int, p.y as int),
    {
        if s.ships[i].covers_cell(p) {
            return true;
        }
    }
    false
}

/// The one-character string for digit `d`.
fn digit_str(d: usize) -> (r: &'static str)
    requires
        d < 10,
    ensures
        r@.len() == 1,
        r@[0] == digit_char(d as int),
{
    proof {
        reveal_strlit("0");
        reveal_strlit("1");
        reveal_strlit("2");
        reveal_strlit("3");
        reveal_strlit("4");
        reveal_strlit("5");
        reveal_strlit("6");
        reveal_strlit("7");
        reveal_strlit("8");
        reveal_strlit("9");
    }
    match d {
        0 => "0",
        1 => "1",
        2 => "2",
        3 => "3",
        4 => "4",
        5 => "5",
        6 => "6",
        7 => "7",
        8 => "8",
        _ => "9",
    }
}

/// The one-character string for the cell `(x, y)`.
fn cell_str(s: &GameState, x: usize, y: usize, reveal: bool) -> (r: &'static str)
    requires
        x < 10,
        y < 10,
    ensures
        r@.len() == 1,
        r@[0] == cell_char(*s, x as int, y as int, reveal),
{
    proof {
        reveal_strlit(".");
        reveal_strlit("o");
        reveal_strlit("X");
        reveal_strlit("S");
    }
    match s.grid[y][x] {
        CellState::Miss => "o",
        CellState::Hit => "X",
        CellState::Empty => {
            if reveal && covered_exec(s, Position::new(x as u32, y as u32)) {
                "S"
            } else {
                "."
            }
        },
    }
}

/// The one-character string at line `line`, column `col` of a rendered
/// board, newlines excluded.
fn side_str(s: &GameState, reveal: bool, line: usize, col: usize) -> (r: &'static str)
    requires
        line < 11,
        col < 33,
    ensures
        r@.len() == 1,
        r@[0] == side_char(*s, reveal, line as int, col as int),
{
    proof {
        reveal_strlit(" ");
    }
    if line == 0 {
        if col < 3 {
            " "
        } else if (col - 3) % 3 == 1 {
            digit_str((col - 3) / 3)
        } else {
            " "
        }
    } else {
        if col == 0 {
            " "
        } else if col == 1 {
            digit_str(line - 1)
        } else if col == 2 {
            " "
        } else if (col - 3) % 3 == 1 {
            cell_str(s, (col - 3) / 3, line - 1, reveal)
        } else {
            " "
        }
    }
}

/// Render one board: a header of column labels, then each row with its
/// label and cells. With `reveal_ships` false no ship cell is shown, so
/// an opponent's board can be printed without leaking placements.
pub fn display_board_str(state: &GameState, reveal_ships: bool) -> (r: String)
    ensures
        r@ == board_str(*state, reveal_ships),
{
    let mut out = String::new();
    proof {
        reveal_strlit("\n");
    }
    for k in 0..374usize
        invariant
            out@ =~= board_str(*state, reveal_ships).subrange(0, k as int),
    {
        let piece: &'static str = if k % 34 == 33 {
            "\n"
        } else {
            side_str(state, reveal_ships, k / 34, k % 34)
        };
        out.append(piece);
        proof {
            reveal_strlit("\n");
            assert(piece@[0] == board_str(*state, reveal_ships)[k as int]);
            assert(out@ =~= board_str(*state, reveal_ships).subrange(0, k + 1));
        }
    }
    proof {
        assert(board_str(*state, reveal_ships).subrange(0, 374) =~= board_str(
            *state,
            reveal_ships,
        ));
    }
    out
}

/// Render two boards side by side: the left one as its owner sees it,
/// the right one always with ships hidden.
pub fn display_dual_str(left: &GameState, right: &GameState, reveal_left: bool) -> (r: String)
    ensures
        r@ == dual_str(*left, *right, reveal_left),
{
    let mut out = String::new();
    for k in 0..781usize
        invariant
            out@ =~= dual_str(*left, *right, reveal_left).subrange(0, k as int),
    {
        let line = k / 71;
        let col = k % 71;
        let piece: &'static str = if col == 70 {
            "\n"
        } else if col < 33 {
            side_str(left, reveal_left, line, col)
        } else if col < 37 {
            " "
        } else {
            side_str(right, false, line, col - 37)
        };
        out.append(piece);
        proof {
            reveal_strlit("\n");
            reveal_strlit(" ");
            assert(piece@[0] == dual_str(*left, *right, reveal_left)[k as int]);
            assert(out@ =~= dual_str(*left, *right, reveal_left).subrange(0, k + 1));
        }
    }
    proof {
        assert(dual_str(*left, *right, reveal_left).subrange(0, 781) =~= dual_str(
            *left,
            *right,
            reveal_left,
        ));
    }
    out
}

} // verus!
