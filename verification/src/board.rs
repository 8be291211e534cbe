use vstd::prelude::*;

pub mod index;
pub mod placement;
pub mod locate;

pub use index::Position;
pub use placement::PlaceError;

verus! {

/// One grid slot: a digit 1-9, or `None` for an empty cell.
pub type Cell = Option<u8>;

/// Side length of a segment, and the number of segments per side.
pub const SEGMENTS: usize = 3;

pub const WIDTH: usize = 9;
pub const HEIGHT: usize = 9;
pub const SIZE: usize = 81;

/// Linear index of the cell at column `x`, row `y` (row-major).
pub open spec fn lin(x: int, y: int) -> int {
    x + y * 9
}

/// The nine cells of row `y`, in x-ascending order.
pub open spec fn row_seq(b: Seq<Cell>, y: int) -> Seq<Cell> {
    Seq::new(9, |x: int| b[lin(x, y)])
}

/// The nine cells of column `x`, in y-ascending order.
pub open spec fn col_seq(b: Seq<Cell>, x: int) -> Seq<Cell> {
    Seq::new(9, |y: int| b[lin(x, y)])
}

/// A coordinate rounded down to the origin of its segment.
pub open spec fn seg_of(v: int) -> int {
    v - v % 3
}

/// The nine cells of the 3x3 segment containing (x, y), in segment-local
/// row-major order starting at the segment's top-left cell.
pub open spec fn seg_seq(b: Seq<Cell>, x: int, y: int) -> Seq<Cell> {
    Seq::new(9, |k: int| b[lin(seg_of(x) + k % 3, seg_of(y) + k / 3)])
}

/// Linear index of member `k` (in segment-local row-major order) of the
/// segment containing (x, y).
pub open spec fn seg_member(x: int, y: int, k: int) -> int {
    lin(seg_of(x) + k % 3, seg_of(y) + k / 3)
}

/// Every digit present on the board lies in 1..=9.
pub open spec fn cells_wf(b: Seq<Cell>) -> bool {
    forall|i: int| 0 <= i < 81 ==> (#[trigger] b[i] matches Some(v) ==> 1 <= v <= 9)
}

/// A linear index splits into its coordinates: column `i % 9`, row `i / 9`.
pub proof fn lemma_lin_coords(x: int, y: int)
    requires
        0 <= x < 9,
        0 <= y < 9,
    ensures
        lin(x, y) % 9 == x,
        lin(x, y) / 9 == y,
        0 <= lin(x, y) < 81,
{
}

/// A segment origin is a multiple of 3 no greater than its coordinate, and
/// rounding any cell of the segment yields the origin again.
pub proof fn lemma_seg_of(v: int, d: int)
    requires
        0 <= v < 9,
        0 <= d < 3,
    ensures
        0 <= seg_of(v) <= v < seg_of(v) + 3,
        seg_of(v) == 0 || seg_of(v) == 3 || seg_of(v) == 6,
        seg_of(seg_of(v) + d) == seg_of(v),
{
}

/// A 9x9 Sudoku grid of optional digits, row-major.
#[derive(Clone, Copy, Debug)]
pub struct Board {
    pub cells: [Cell; 81],
}

impl View for Board {
    type V = Seq<Cell>;

    open spec fn view(&self) -> Seq<Cell> {
        self.cells@
    }
}

impl Board {
    /// An empty board: all 81 cells absent.
    pub fn new() -> (b: Self)
        ensures
            forall|i: int| 0 <= i < 81 ==> b@[i] is None,
    {
        Self { cells: [None; 81] }
    }

    pub fn width(&self) -> (w: usize)
        ensures
            w == 9,
    {
        WIDTH
    }

    pub fn height(&self) -> (h: usize)
        ensures
            h == 9,
    {
        HEIGHT
    }

    pub fn size(&self) -> (s: usize)
        ensures
            s == 81,
    {
        self.width() * self.height()
    }

    /// Linear index of the cell at column `x`, row `y`.
    #[inline]
    pub fn index(&self, x: usize, y: usize) -> (i: usize)
        requires
            x < 9,
            y < 9,
        ensures
            i == lin(x as int, y as int),
            i < 81,
    {
        x + y * self.width()
    }

    /// The (x, y) coordinate of the cell at a linear index.
    #[inline]
    pub fn cell_pos(&self, index: usize) -> (c: (usize, usize))
        ensures
            c.0 == index as int % 9,
            c.1 == index as int / 9,
    {
        (index % self.height(), index / self.width())
    }

    /// Round to the position of the nearest segment origin: (1, 2) -> (0, 0).
    pub fn segment_pos(&self, x: usize, y: usize) -> (s: (usize, usize))
        ensures
            s.0 == seg_of(x as int),
            s.1 == seg_of(y as int),
    {
        (x - x % SEGMENTS, y - y % SEGMENTS)
    }

    /// Write `cell` at (x, y) directly, without any constraint check.
    pub fn set(&mut self, x: usize, y: usize, cell: Cell)
        requires
            x < 9,
            y < 9,
        ensures
            final(self)@ == old(self)@.update(lin(x as int, y as int), cell),
    {
        let i = self.index(x, y);
        self.cells[i] = cell;
    }
}

} // verus!
