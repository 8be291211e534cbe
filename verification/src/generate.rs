use vstd::prelude::*;

use rand::RngExt;

use crate::board::index::Position;
use crate::board::placement::{
    consistent, lemma_empty_consistent, lemma_place_preserves_consistent, place_error_spec,
};
use crate::board::{cells_wf, col_seq, lin, row_seq, seg_seq, Board, Cell};

verus! {

#[derive(Clone, Copy)]
pub enum Strategy {
    /// Try to insert and ignore if it fails
    TryRandom,
    /// Same as TryRandom, but it only inserts on random chance.
    TryRandomSparse,
}

#[verifier::external_type_specification]
#[verifier::external_body]
pub struct ExThreadRng(rand::rngs::ThreadRng);

/// Relies on rand::rng: a handle to the thread-local random generator.
#[verifier::external_body]
fn fresh_rng() -> rand::rngs::ThreadRng {
    rand::rng()
}

/// Relies on RngExt::random_range over the non-empty range 1..=9: the
/// sampled value lies within the range.
#[verifier::external_body]
fn random_digit(rng: &mut rand::rngs::ThreadRng) -> (n: u8)
    ensures
        1 <= n <= 9,
{
    rng.random_range(1..=9)
}

/// Relies on RngExt::random_range over the non-empty range 0..3: the
/// sampled value lies within the range, so it is 0 with chance one third.
#[verifier::external_body]
fn random_chance(rng: &mut rand::rngs::ThreadRng) -> (n: u8)
    ensures
        n < 3,
{
    rng.random_range(0..3)
}

/// Fill a fresh board by the given strategy: walk the 81 cells in
/// row-major order and attempt to place a random digit in each, skipping
/// the cell when the placement is refused (and, for the sparse strategy,
/// on two of three random draws). Whatever the random draws were, the
/// result satisfies the Sudoku uniqueness invariant and holds only digits
/// in 1..=9. Under the exhaustive strategy the board is populated: the
/// first draw always lands, since nothing on the empty grid conflicts
/// with it.
pub fn generate_board(strategy: Strategy) -> (board: Board)
    ensures
        consistent(board@),
        cells_wf(board@),
        strategy is TryRandom ==> board@[0] is Some,
{
    let mut board = Board::new();
    let mut rng = fresh_rng();
    proof {
        lemma_empty_consistent(board@);
    }

    match strategy {
        Strategy::TryRandom => {
            let mut row: usize = 0;
            while row < 9
                invariant
                    consistent(board@),
                    cells_wf(board@),
                    row == 0 ==> (forall|i: int| 0 <= i < 81 ==> board@[i] is None),
                    row > 0 ==> board@[0] is Some,
                decreases 9 - row,
            {
                let mut col: usize = 0;
                while col < 9
                    invariant
                        row < 9,
                        consistent(board@),
                        cells_wf(board@),
                        row == 0 && col == 0 ==> (forall|i: int|
                            0 <= i < 81 ==> board@[i] is None),
                        row > 0 || col > 0 ==> board@[0] is Some,
                    decreases 9 - col,
                {
                    let num = random_digit(&mut rng);
                    let ghost prev = board@;
                    let _ = board.place_at((col, row), Some(num));
                    proof {
                        let i = lin(col as int, row as int);
                        if place_error_spec(prev, i, Some(num)) is None {
                            lemma_place_preserves_consistent(prev, i, Some(num));
                        }
                        if row == 0 && col == 0 {
                            // The first draw lands: nothing on the empty
                            // grid conflicts with it.
                            assert(forall|k: int| 0 <= k < 9 ==> row_seq(prev, 0)[k] is None);
                            assert(forall|k: int| 0 <= k < 9 ==> col_seq(prev, 0)[k] is None);
                            assert(forall|k: int| 0 <= k < 9 ==> seg_seq(prev, 0, 0)[k] is None);
                            assert(place_error_spec(prev, 0, Some(num)) is None);
                            assert(board@[0] is Some);
                        } else {
                            assert(i != 0);
                        }
                    }
                    col += 1;
                }
                row += 1;
            }
        },
        Strategy::TryRandomSparse => {
            let mut row: usize = 0;
            while row < 9
                invariant
                    consistent(board@),
                    cells_wf(board@),
                decreases 9 - row,
            {
                let mut col: usize = 0;
                while col < 9
                    invariant
                        row < 9,
                        consistent(board@),
                        cells_wf(board@),
                    decreases 9 - col,
                {
                    let num = random_digit(&mut rng);
                    let should_place = random_chance(&mut rng) == 0;
                    let index = (col, row).index();

                    if should_place && board.placement_error(index, Some(num)).is_none() {
                        let ghost prev = board@;
                        let _ = board.place(index, Some(num));
                        proof {
                            let i = lin(index as int % 9, index as int / 9);
                            if place_error_spec(prev, i, Some(num)) is None {
                                lemma_place_preserves_consistent(prev, i, Some(num));
                            }
                        }
                    }
                    col += 1;
                }
                row += 1;
            }
        },
    }

    board
}

} // verus!
