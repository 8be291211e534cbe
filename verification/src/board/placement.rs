use vstd::prelude::*;

use crate::board::index::{pos_valid, Position};
use crate::board::{
    col_seq, lemma_lin_coords, lemma_seg_of, lin, row_seq, seg_of, seg_seq, Board, Cell,
};

verus! {

/// Failed to place a number in a cell
#[derive(Clone, Copy, Debug, PartialEq, Eq, Structural, PartialOrd)]
pub enum PlaceError {
    AlreadyInCell,
    AlreadyInRow,
    AlreadyInCol,
    AlreadyInSeg,
}

/// The reason, if any, why writing `c` into the cell at linear index `i` of
/// board `b` is refused. The checks run in a fixed priority order: the
/// cell's current value first, then the row, column, and segment
/// constraints; the first violated one is reported. An absent value never
/// conflicts with other cells, so clearing is refused only when the cell is
/// already empty.
pub open spec fn place_error_spec(b: Seq<Cell>, i: int, c: Cell) -> Option<PlaceError>
    recommends
        b.len() == 81,
        0 <= i < 81,
{
    if b[i] == c {
        Some(PlaceError::AlreadyInCell)
    } else if c is Some && row_seq(b, i / 9).contains(c) {
        Some(PlaceError::AlreadyInRow)
    } else if c is Some && col_seq(b, i % 9).contains(c) {
        Some(PlaceError::AlreadyInCol)
    } else if c is Some && seg_seq(b, i % 9, i / 9).contains(c) {
        Some(PlaceError::AlreadyInSeg)
    } else {
        None
    }
}

/// Whether two cells hold the same value.
fn cell_eq(a: Cell, b: Cell) -> (r: bool)
    ensures
        r == (a == b),
{
    match (a, b) {
        (None, None) => true,
        (Some(x), Some(y)) => x == y,
        _ => false,
    }
}

/// Whether `c` occurs among `cells`.
fn contains_cell(cells: &Vec<Cell>, c: Cell) -> (r: bool)
    ensures
        r == cells@.contains(c),
{
    let n = cells.len();
    let mut k: usize = 0;
    while k < n
        invariant
            k <= n,
            n == cells@.len(),
            forall|j: int| 0 <= j < k ==> cells@[j] != c,
        decreases n - k,
    {
        if cell_eq(cells[k], c) {
            return true;
        }
        k += 1;
    }
    false
}

impl Board {
    /// The reason why writing `cell` at `pos` would be refused, or `None`
    /// if the placement is legal. Read-only: the grid is not touched.
    pub fn placement_error<P: Position>(&self, pos: P, cell: Cell) -> (r: Option<PlaceError>)
        requires
            pos_valid(pos),
        ensures
            r == place_error_spec(self@, lin(pos.x_spec(), pos.y_spec()), cell),
    {
        let (x, y) = pos.coords();
        let index = x + y * 9;
        proof {
            lemma_lin_coords(x as int, y as int);
        }

        if cell_eq(self.cells[index], cell) {
            return Some(PlaceError::AlreadyInCell);
        }
        if cell.is_some() {
            if contains_cell(&self.row((x, y)), cell) {
                return Some(PlaceError::AlreadyInRow);
            }
            if contains_cell(&self.col((x, y)), cell) {
                return Some(PlaceError::AlreadyInCol);
            }
            if contains_cell(&self.segment((x, y)), cell) {
                return Some(PlaceError::AlreadyInSeg);
            }
        }
        None
    }

    /// Attempt to write `cell` at `pos`. On success the single cell is
    /// updated; on refusal the grid is left untouched and the reason is
    /// surfaced. Succeeds exactly when `placement_error` reports nothing.
    pub fn place<P: Position>(&mut self, pos: P, cell: Cell) -> (r: Result<(), PlaceError>)
        requires
            pos_valid(pos),
        ensures
            ({
                let i = lin(pos.x_spec(), pos.y_spec());
                match place_error_spec(old(self)@, i, cell) {
                    Some(e) => r == Err::<(), PlaceError>(e) && final(self)@ == old(self)@,
                    None => r == Ok::<(), PlaceError>(()) && final(self)@ == old(self)@.update(
                        i,
                        cell,
                    ),
                }
            }),
    {
        let (x, y) = pos.coords();
        match self.placement_error((x, y), cell) {
            Some(e) => Err(e),
            None => {
                let i = x + y * 9;
                self.cells[i] = cell;
                Ok(())
            },
        }
    }

    /// Attempt a placement at `pos`; same contract as `place`.
    pub fn place_at<P: Position>(&mut self, pos: P, cell: Cell) -> (r: Result<(), PlaceError>)
        requires
            pos_valid(pos),
        ensures
            ({
                let i = lin(pos.x_spec(), pos.y_spec());
                match place_error_spec(old(self)@, i, cell) {
                    Some(e) => r == Err::<(), PlaceError>(e) && final(self)@ == old(self)@,
                    None => r == Ok::<(), PlaceError>(()) && final(self)@ == old(self)@.update(
                        i,
                        cell,
                    ),
                }
            }),
    {
        self.place(pos, cell)
    }
}

/// Law: a placement succeeds exactly when the constraint check reports no
/// error; a successful one leaves the placed value readable at the
/// position and every other cell unchanged, while a refused one changes
/// nothing at all (which the contract of `place` states directly).
pub proof fn lemma_place_then_get(b: Seq<Cell>, i: int, c: Cell)
    requires
        b.len() == 81,
        0 <= i < 81,
    ensures
        place_error_spec(b, i, c) is None ==> b.update(i, c)[i] == c,
        place_error_spec(b, i, c) is None ==> forall|j: int|
            0 <= j < 81 && j != i ==> b.update(i, c)[j] == b[j],
{
}

/// Law: placing a value a second time at the same position is refused with
/// AlreadyInCell, so the grid stays as the first placement left it.
pub proof fn lemma_place_idempotent(b: Seq<Cell>, i: int, c: Cell)
    requires
        b.len() == 81,
        0 <= i < 81,
        place_error_spec(b, i, c) is None,
    ensures
        place_error_spec(b.update(i, c), i, c) == Some(PlaceError::AlreadyInCell),
{
}

/// Law: the row constraint is checked before the column and segment
/// constraints, so a placement that violates the row constraint reports
/// AlreadyInRow even when other constraints are violated as well.
pub proof fn lemma_row_checked_first(b: Seq<Cell>, i: int, c: Cell)
    requires
        b.len() == 81,
        0 <= i < 81,
        b[i] != c,
        c is Some,
        row_seq(b, i / 9).contains(c),
    ensures
        place_error_spec(b, i, c) == Some(PlaceError::AlreadyInRow),
{
}

/// Two distinct linear indices that share a row, a column, or a segment.
pub open spec fn same_group(p: int, q: int) -> bool {
    p / 9 == q / 9 || p % 9 == q % 9 || (seg_of(p % 9) == seg_of(q % 9) && seg_of(p / 9) == seg_of(
        q / 9,
    ))
}

/// The Sudoku invariant: no digit occurs in two cells that share a row, a
/// column, or a segment.
pub open spec fn consistent(b: Seq<Cell>) -> bool {
    forall|p: int, q: int|
        0 <= p < 81 && 0 <= q < 81 && p != q && #[trigger] same_group(p, q) && b[p] is Some
            ==> b[p] != b[q]
}

/// A row view holds a value exactly when some cell of that row holds it.
proof fn lemma_row_contains(b: Seq<Cell>, y: int, c: Cell)
    requires
        b.len() == 81,
        0 <= y < 9,
    ensures
        row_seq(b, y).contains(c) <==> exists|x: int| 0 <= x < 9 && b[lin(x, y)] == c,
{
    if row_seq(b, y).contains(c) {
        let k = choose|k: int| 0 <= k < 9 && row_seq(b, y)[k] == c;
        assert(b[lin(k, y)] == c);
    }
    if exists|x: int| 0 <= x < 9 && b[lin(x, y)] == c {
        let x = choose|x: int| 0 <= x < 9 && b[lin(x, y)] == c;
        assert(row_seq(b, y)[x] == c);
    }
}

/// A column view holds a value exactly when some cell of that column holds it.
proof fn lemma_col_contains(b: Seq<Cell>, x: int, c: Cell)
    requires
        b.len() == 81,
        0 <= x < 9,
    ensures
        col_seq(b, x).contains(c) <==> exists|y: int| 0 <= y < 9 && b[lin(x, y)] == c,
{
    if col_seq(b, x).contains(c) {
        let k = choose|k: int| 0 <= k < 9 && col_seq(b, x)[k] == c;
        assert(b[lin(x, k)] == c);
    }
    if exists|y: int| 0 <= y < 9 && b[lin(x, y)] == c {
        let y = choose|y: int| 0 <= y < 9 && b[lin(x, y)] == c;
        assert(col_seq(b, x)[y] == c);
    }
}

/// A segment view holds a value exactly when some cell of that segment
/// holds it.
proof fn lemma_seg_contains(b: Seq<Cell>, x: int, y: int, c: Cell)
    requires
        b.len() == 81,
        0 <= x < 9,
        0 <= y < 9,
    ensures
        seg_seq(b, x, y).contains(c) <==> exists|p: int|
            0 <= p < 81 && seg_of(p % 9) == seg_of(x) && seg_of(p / 9) == seg_of(y) && b[p] == c,
{
    if seg_seq(b, x, y).contains(c) {
        let k = choose|k: int| 0 <= k < 9 && seg_seq(b, x, y)[k] == c;
        let px = seg_of(x) + k % 3;
        let py = seg_of(y) + k / 3;
        lemma_seg_of(x, k % 3);
        lemma_seg_of(y, k / 3);
        lemma_lin_coords(px, py);
        assert(b[lin(px, py)] == c);
        assert(seg_of(lin(px, py) % 9) == seg_of(x) && seg_of(lin(px, py) / 9) == seg_of(y));
    }
    if exists|p: int|
        0 <= p < 81 && seg_of(p % 9) == seg_of(x) && seg_of(p / 9) == seg_of(y) && b[p] == c {
        let p = choose|p: int|
            0 <= p < 81 && seg_of(p % 9) == seg_of(x) && seg_of(p / 9) == seg_of(y) && b[p] == c;
        let px = p % 9;
        let py = p / 9;
        lemma_seg_of(px, 0);
        lemma_seg_of(py, 0);
        let k = (px - seg_of(px)) + (py - seg_of(py)) * 3;
        assert(k % 3 == px - seg_of(px) && k / 3 == py - seg_of(py));
        assert(lin(px, py) == p);
        assert(seg_seq(b, x, y)[k] == c);
    }
}

/// Law: a placement that passes the constraint check preserves the Sudoku
/// invariant.
pub proof fn lemma_place_preserves_consistent(b: Seq<Cell>, i: int, c: Cell)
    requires
        b.len() == 81,
        0 <= i < 81,
        consistent(b),
        place_error_spec(b, i, c) is None,
    ensures
        consistent(b.update(i, c)),
{
    let b2 = b.update(i, c);
    let x = i % 9;
    let y = i / 9;
    lemma_lin_coords(x, y);
    assert forall|p: int, q: int|
        0 <= p < 81 && 0 <= q < 81 && p != q && #[trigger] same_group(p, q) && b2[p] is Some
        implies b2[p] != b2[q] by {
        if p != i && q != i {
            assert(b[p] is Some && b[p] != b[q]);
        } else {
            // One side is the freshly written cell; the other is an old
            // cell of the same group, which cannot hold `c`.
            let o = if p == i {
                q
            } else {
                p
            };
            assert(b2[o] == b[o]);
            if c is Some {
                if o / 9 == y {
                    lemma_row_contains(b, y, c);
                    lemma_lin_coords(o % 9, o / 9);
                    assert(lin(o % 9, o / 9) == o);
                    assert(b[o] != c);
                } else if o % 9 == x {
                    lemma_col_contains(b, x, c);
                    lemma_lin_coords(o % 9, o / 9);
                    assert(b[o] != c);
                } else {
                    assert(seg_of(o % 9) == seg_of(x) && seg_of(o / 9) == seg_of(y));
                    lemma_seg_contains(b, x, y, c);
                    assert(b[o] != c);
                }
            }
        }
    }
}

/// Law: the empty board satisfies the Sudoku invariant.
pub proof fn lemma_empty_consistent(b: Seq<Cell>)
    requires
        b.len() == 81,
        forall|i: int| 0 <= i < 81 ==> b[i] is None,
    ensures
        consistent(b),
{
}

} // verus!
