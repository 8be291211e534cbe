use vstd::prelude::*;

use crate::board::index::{pos_valid, Position};
use crate::board::placement::{place_error_spec, PlaceError};
use crate::board::{lemma_lin_coords, lemma_seg_of, lin, seg_of, seg_seq, Board, Cell};

verus! {

/// Index of the first occurrence of `c` in `cells`.
fn find_cell(cells: &Vec<Cell>, c: Cell) -> (r: usize)
    requires
        cells@.contains(c),
    ensures
        r < cells@.len(),
        cells@[r as int] == c,
        forall|j: int| 0 <= j < r ==> cells@[j] != c,
{
    let n = cells.len();
    let mut k: usize = 0;
    while k < n
        invariant
            k <= n,
            n == cells@.len(),
            cells@.contains(c),
            forall|j: int| 0 <= j < k ==> cells@[j] != c,
        decreases n - k,
    {
        let cur = cells[k];
        let hit = match (cur, c) {
            (None, None) => true,
            (Some(a), Some(b)) => a == b,
            _ => false,
        };
        if hit {
            return k;
        }
        k += 1;
    }
    proof {
        let w = choose|j: int| 0 <= j < cells@.len() && cells@[j] == c;
        assert(false);
    }
    vstd::pervasive::unreached()
}

impl Board {
    /// Given a placement of `cell` at `pos` that `placement_error` has
    /// already refused with `err`, the linear index of the existing cell
    /// that caused the conflict: the position itself for AlreadyInCell,
    /// else the first matching cell of the row, column, or segment in that
    /// group's scan order.
    pub fn locate_conflict<P: Position>(&self, pos: P, cell: Cell, err: PlaceError) -> (r: usize)
        requires
            pos_valid(pos),
            place_error_spec(self@, lin(pos.x_spec(), pos.y_spec()), cell) == Some(err),
        ensures
            r < 81,
            self@[r as int] == cell,
            err == PlaceError::AlreadyInCell ==> r == lin(pos.x_spec(), pos.y_spec()),
            err == PlaceError::AlreadyInRow ==> r as int / 9 == pos.y_spec() && (forall|x2: int|
                0 <= x2 < r as int % 9 ==> self@[lin(x2, pos.y_spec())] != cell),
            err == PlaceError::AlreadyInCol ==> r as int % 9 == pos.x_spec() && (forall|y2: int|
                0 <= y2 < r as int / 9 ==> self@[lin(pos.x_spec(), y2)] != cell),
            err == PlaceError::AlreadyInSeg ==> (exists|k: int|
                0 <= k < 9 && seg_seq(self@, pos.x_spec(), pos.y_spec())[k] == cell && (forall|
                    k2: int,
                |
                    0 <= k2 < k ==> seg_seq(self@, pos.x_spec(), pos.y_spec())[k2] != cell)
                    && r == lin(seg_of(pos.x_spec()) + k % 3, seg_of(pos.y_spec()) + k / 3)),
    {
        let (x, y) = pos.coords();
        proof {
            lemma_lin_coords(x as int, y as int);
        }
        match err {
            PlaceError::AlreadyInCell => x + y * 9,
            PlaceError::AlreadyInRow => {
                let row = self.row((x, y));
                let fx = find_cell(&row, cell);
                proof {
                    lemma_lin_coords(fx as int, y as int);
                    assert forall|x2: int| 0 <= x2 < fx as int implies self@[lin(
                        x2,
                        pos.y_spec(),
                    )] != cell by {
                        assert(row@[x2] != cell);
                    }
                }
                fx + y * 9
            },
            PlaceError::AlreadyInCol => {
                let col = self.col((x, y));
                let fy = find_cell(&col, cell);
                proof {
                    lemma_lin_coords(x as int, fy as int);
                    assert forall|y2: int| 0 <= y2 < fy as int implies self@[lin(
                        pos.x_spec(),
                        y2,
                    )] != cell by {
                        assert(col@[y2] != cell);
                    }
                }
                x + fy * 9
            },
            PlaceError::AlreadyInSeg => {
                let (sx, sy) = (x, y).segment();
                let seg = self.segment((x, y));
                let k = find_cell(&seg, cell);
                proof {
                    lemma_seg_of(x as int, (k as int) % 3);
                    lemma_seg_of(y as int, (k as int) / 3);
                    lemma_lin_coords(sx as int + (k as int) % 3, sy as int + (k as int) / 3);
                }
                (sx + k % 3) + (sy + k / 3) * 9
            },
        }
    }
}

} // verus!
