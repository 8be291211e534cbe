use vstd::prelude::*;
use vstd::string::StringExecFns;

use crate::board::{lin, Board, Cell};

verus! {

/// The two characters printed for one cell: its digit or '.', then a space.
pub open spec fn cell_str(c: Cell) -> Seq<char> {
    match c {
        None => ". "@,
        Some(v) => if v == 1 {
            "1 "@
        } else if v == 2 {
            "2 "@
        } else if v == 3 {
            "3 "@
        } else if v == 4 {
            "4 "@
        } else if v == 5 {
            "5 "@
        } else if v == 6 {
            "6 "@
        } else if v == 7 {
            "7 "@
        } else if v == 8 {
            "8 "@
        } else {
            "9 "@
        },
    }
}

/// The first `n` cells of row `y` as text, with a bar before the cells
/// that open the second and third column groups.
pub open spec fn row_prefix(b: Seq<Cell>, y: int, n: int) -> Seq<char>
    decreases n,
{
    if n <= 0 {
        Seq::empty()
    } else if (n - 1) % 3 == 0 && n - 1 != 0 {
        row_prefix(b, y, n - 1) + "| "@ + cell_str(b[lin(n - 1, y)])
    } else {
        row_prefix(b, y, n - 1) + cell_str(b[lin(n - 1, y)])
    }
}

/// One full row of text, ending in a newline.
pub open spec fn row_str(b: Seq<Cell>, y: int) -> Seq<char> {
    row_prefix(b, y, 9) + "\n"@
}

/// The first `n` rows of the grid as text, with a separator line before
/// the rows that open the second and third row groups.
pub open spec fn grid_prefix(b: Seq<Cell>, n: int) -> Seq<char>
    decreases n,
{
    if n <= 0 {
        Seq::empty()
    } else if (n - 1) % 3 == 0 && n - 1 != 0 {
        grid_prefix(b, n - 1) + "------+-------+------\n"@ + row_str(b, n - 1)
    } else {
        grid_prefix(b, n - 1) + row_str(b, n - 1)
    }
}

/// The full text form of a board.
pub open spec fn board_str(b: Seq<Cell>) -> Seq<char> {
    grid_prefix(b, 9)
}

impl Board {
    /// Render the grid as text: one character per cell (its digit, or '.'
    /// when empty), space-separated, with a bar between column groups and
    /// a separator line between row groups. A debug aid, not a parsed
    /// format.
    pub fn to_text(&self) -> (s: String)
        ensures
            s@ == board_str(self@),
    {
        let mut s = String::new();
        let mut row: usize = 0;
        while row < 9
            invariant
                row <= 9,
                s@ == grid_prefix(self@, row as int),
            decreases 9 - row,
        {
            if row % 3 == 0 && row != 0 {
                s.append("------+-------+------\n");
            }
            let mut rs = String::new();
            let mut col: usize = 0;
            while col < 9
                invariant
                    col <= 9,
                    row < 9,
                    rs@ == row_prefix(self@, row as int, col as int),
                decreases 9 - col,
            {
                if col % 3 == 0 && col != 0 {
                    rs.append("| ");
                }
                match self.cells[col + row * 9] {
                    None => rs.append(". "),
                    Some(v) => {
                        if v == 1 {
                            rs.append("1 ");
                        } else if v == 2 {
                            rs.append("2 ");
                        } else if v == 3 {
                            rs.append("3 ");
                        } else if v == 4 {
                            rs.append("4 ");
                        } else if v == 5 {
                            rs.append("5 ");
                        } else if v == 6 {
                            rs.append("6 ");
                        } else if v == 7 {
                            rs.append("7 ");
                        } else if v == 8 {
                            rs.append("8 ");
                        } else {
                            rs.append("9 ");
                        }
                    },
                }
                col += 1;
            }
            rs.append("\n");
            s.append(rs.as_str());
            row += 1;
        }
        s
    }
}

} // verus!
