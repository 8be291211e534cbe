use vstd::prelude::*;

use crate::board::{
    lin, row_seq, col_seq, seg_seq, seg_of, seg_member, lemma_lin_coords, lemma_seg_of, Board,
    Cell, HEIGHT, SEGMENTS, WIDTH,
};

verus! {

/// A cell reference that normalizes to an (x, y) coordinate pair and to a
/// linear index, with index = x + y * 9.
pub trait Position: Sized {
    /// Canonical column of the referenced cell.
    spec fn x_spec(self) -> int;

    /// Canonical row of the referenced cell.
    spec fn y_spec(self) -> int;

    /// index into board cells
    fn index(self) -> (i: usize)
        requires
            self.x_spec() + self.y_spec() * 9 <= usize::MAX,
        ensures
            i == lin(self.x_spec(), self.y_spec()),
    ;

    /// (x, y)
    fn coords(self) -> (c: (usize, usize))
        ensures
            c.0 == self.x_spec(),
            c.1 == self.y_spec(),
    ;

    /// round to the position of the nearest segment (1, 2) -> (0, 0)
    fn segment(self) -> (s: (usize, usize))
        ensures
            s.0 == seg_of(self.x_spec()),
            s.1 == seg_of(self.y_spec()),
    {
        let (x, y) = self.coords();
        (x - x % SEGMENTS, y - y % SEGMENTS)
    }
}

/// Both coordinates of the position lie on the 9x9 grid.
pub open spec fn pos_valid<P: Position>(p: P) -> bool {
    0 <= p.x_spec() < 9 && 0 <= p.y_spec() < 9
}

impl Position for usize {
    open spec fn x_spec(self) -> int {
        self as int % 9
    }

    open spec fn y_spec(self) -> int {
        self as int / 9
    }

    fn index(self) -> (i: usize) {
        self
    }

    fn coords(self) -> (c: (usize, usize)) {
        (self % WIDTH, self / HEIGHT)
    }
}

impl Position for (usize, usize) {
    open spec fn x_spec(self) -> int {
        self.0 as int
    }

    open spec fn y_spec(self) -> int {
        self.1 as int
    }

    fn index(self) -> (i: usize) {
        self.0 + self.1 * WIDTH
    }

    fn coords(self) -> (c: (usize, usize)) {
        self
    }
}

impl Board {
    /// The nine cells of `pos`'s row, in x-ascending order.
    pub fn row<P: Position>(&self, pos: P) -> (r: Vec<Cell>)
        requires
            pos_valid(pos),
        ensures
            r@ == row_seq(self@, pos.y_spec()),
    {
        let (_, y) = pos.coords();
        let mut r: Vec<Cell> = Vec::new();
        let mut x: usize = 0;
        while x < 9
            invariant
                x <= 9,
                y < 9,
                y == pos.y_spec(),
                r@.len() == x,
                forall|j: int| 0 <= j < x ==> r@[j] == row_seq(self@, y as int)[j],
            decreases 9 - x,
        {
            r.push(self.cells[x + y * 9]);
            x += 1;
        }
        proof {
            assert(r@ =~= row_seq(self@, pos.y_spec()));
        }
        r
    }

    /// The nine cells of `pos`'s column, in y-ascending order.
    pub fn col<P: Position>(&self, pos: P) -> (r: Vec<Cell>)
        requires
            pos_valid(pos),
        ensures
            r@ == col_seq(self@, pos.x_spec()),
    {
        let (x, _) = pos.coords();
        let mut r: Vec<Cell> = Vec::new();
        let mut y: usize = 0;
        while y < 9
            invariant
                y <= 9,
                x < 9,
                x == pos.x_spec(),
                r@.len() == y,
                forall|j: int| 0 <= j < y ==> r@[j] == col_seq(self@, x as int)[j],
            decreases 9 - y,
        {
            r.push(self.cells[x + y * 9]);
            y += 1;
        }
        proof {
            assert(r@ =~= col_seq(self@, pos.x_spec()));
        }
        r
    }

    /// The nine cells of `pos`'s 3x3 segment, in segment-local row-major
    /// order starting at the segment's top-left cell.
    pub fn segment<P: Position>(&self, pos: P) -> (r: Vec<Cell>)
        requires
            pos_valid(pos),
        ensures
            r@ == seg_seq(self@, pos.x_spec(), pos.y_spec()),
    {
        let (sx, sy) = pos.segment();
        let mut r: Vec<Cell> = Vec::new();
        let mut k: usize = 0;
        while k < 9
            invariant
                k <= 9,
                sx == seg_of(pos.x_spec()),
                sy == seg_of(pos.y_spec()),
                0 <= sx <= 6,
                0 <= sy <= 6,
                r@.len() == k,
                forall|j: int|
                    0 <= j < k ==> r@[j] == seg_seq(self@, pos.x_spec(), pos.y_spec())[j],
            decreases 9 - k,
        {
            r.push(self.cells[(sx + k % 3) + (sy + k / 3) * 9]);
            k += 1;
        }
        proof {
            assert(r@ =~= seg_seq(self@, pos.x_spec(), pos.y_spec()));
        }
        r
    }

    /// The cell that `pos` refers to, or `None` if `pos` resolves outside
    /// the grid. Tolerates out-of-range positions.
    pub fn get<P: Position>(&self, pos: P) -> (r: Option<Cell>)
        requires
            pos.x_spec() + pos.y_spec() * 9 <= usize::MAX,
        ensures
            0 <= lin(pos.x_spec(), pos.y_spec()) < 81 ==> r == Some(
                self@[lin(pos.x_spec(), pos.y_spec())],
            ),
            !(0 <= lin(pos.x_spec(), pos.y_spec()) < 81) ==> r is None,
    {
        let i = pos.index();
        if i < 81 {
            Some(self.cells[i])
        } else {
            None
        }
    }
}

/// Law: the row, column, and segment views through a position each hold
/// that position's own cell among their nine members, at a known offset.
pub proof fn lemma_views_hold_position(b: Seq<Cell>, x: int, y: int)
    requires
        b.len() == 81,
        0 <= x < 9,
        0 <= y < 9,
    ensures
        row_seq(b, y).len() == 9 && row_seq(b, y)[x] == b[lin(x, y)],
        col_seq(b, x).len() == 9 && col_seq(b, x)[y] == b[lin(x, y)],
        seg_seq(b, x, y).len() == 9 && seg_seq(b, x, y)[(x - seg_of(x)) + (y - seg_of(y))
            * 3] == b[lin(x, y)],
{
    let k = (x - seg_of(x)) + (y - seg_of(y)) * 3;
    assert(k % 3 == x - seg_of(x) && k / 3 == y - seg_of(y)) by {
        lemma_seg_of(x, 0);
        lemma_seg_of(y, 0);
    }
    assert(seg_seq(b, x, y)[k] == b[lin(x, y)]);
}

/// Law: positions sharing a row, a column, or a segment see identical row,
/// column, or segment views.
pub proof fn lemma_shared_views(b: Seq<Cell>, x1: int, y1: int, x2: int, y2: int)
    requires
        b.len() == 81,
        0 <= x1 < 9,
        0 <= y1 < 9,
        0 <= x2 < 9,
        0 <= y2 < 9,
    ensures
        y1 == y2 ==> row_seq(b, y1) == row_seq(b, y2),
        x1 == x2 ==> col_seq(b, x1) == col_seq(b, x2),
        seg_of(x1) == seg_of(x2) && seg_of(y1) == seg_of(y2) ==> seg_seq(b, x1, y1) == seg_seq(
            b,
            x2,
            y2,
        ),
{
    if seg_of(x1) == seg_of(x2) && seg_of(y1) == seg_of(y2) {
        assert(seg_seq(b, x1, y1) =~= seg_seq(b, x2, y2));
    }
}

/// Law: the segment enumeration is independent of which member requested
/// it. Every enumerated member lies on the grid and rounds back to the same
/// segment origin, and the requesting position itself is member number
/// (x mod 3) + (y mod 3) * 3 of the enumeration.
pub proof fn lemma_segment_mapping(x: int, y: int, k: int)
    requires
        0 <= x < 9,
        0 <= y < 9,
        0 <= k < 9,
    ensures
        0 <= seg_member(x, y, k) < 81,
        seg_of(seg_member(x, y, k) % 9) == seg_of(x),
        seg_of(seg_member(x, y, k) / 9) == seg_of(y),
        seg_member(x, y, (x - seg_of(x)) + (y - seg_of(y)) * 3) == lin(x, y),
{
    lemma_seg_of(x, k % 3);
    lemma_seg_of(y, k / 3);
    lemma_lin_coords(seg_of(x) + k % 3, seg_of(y) + k / 3);
    let k0 = (x - seg_of(x)) + (y - seg_of(y)) * 3;
    assert(k0 % 3 == x - seg_of(x) && k0 / 3 == y - seg_of(y)) by {
        lemma_seg_of(x, 0);
        lemma_seg_of(y, 0);
    }
}

} // verus!
