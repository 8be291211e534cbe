use sudoru::board::PlaceError;
use sudoru::{generate_board, Board, Strategy};

#[test]
fn place_success_then_get() {
    let mut board = Board::new();
    assert_eq!(board.placement_error((2, 5), Some(7)), None);
    assert_eq!(board.place((2, 5), Some(7)), Ok(()));
    assert_eq!(board.get((2, 5)), Some(Some(7)));
}

#[test]
fn place_twice_is_refused() {
    let mut board = Board::new();
    assert_eq!(board.place((4, 4), Some(9)), Ok(()));
    assert_eq!(board.place((4, 4), Some(9)), Err(PlaceError::AlreadyInCell));
    // The second attempt left the grid as the first placement made it.
    for i in 0..81usize {
        let expected = if i == 4 + 4 * 9 { Some(9) } else { None };
        assert_eq!(board.get(i), Some(expected));
    }
}

#[test]
fn row_reported_before_col() {
    let mut board = Board::new();
    // A placement at (3, 4) that conflicts with both its row and its column.
    board.set(0, 4, Some(5));
    board.set(3, 0, Some(5));

    assert_eq!(
        board.placement_error((3, 4), Some(5)),
        Some(PlaceError::AlreadyInRow)
    );
}

#[test]
fn group_views_hold_their_position() {
    let mut board = Board::new();
    for i in 0..81usize {
        board.set(i % 9, i / 9, Some((i % 9 + 1) as u8));
    }
    for i in 0..81usize {
        let (x, y) = (i % 9, i / 9);
        let own = board.get(i).unwrap();
        assert_eq!(board.row(i)[x], own);
        assert_eq!(board.col(i)[y], own);
        let (sx, sy) = board.segment_pos(x, y);
        assert_eq!(board.segment(i)[(x - sx) + (y - sy) * 3], own);
    }
    // Positions sharing a row, column, or segment see identical views.
    assert_eq!(board.row((0, 6)), board.row((8, 6)));
    assert_eq!(board.col((2, 0)), board.col((2, 8)));
    assert_eq!(board.segment((3, 3)), board.segment((5, 5)));
}

#[test]
fn segment_mapping_is_member_independent() {
    let mut board = Board::new();
    for i in 0..81usize {
        // A distinct value per cell, so equal views mean equal cells.
        board.cells[i] = Some((i % 9 + 1) as u8);
    }
    for i in 0..81usize {
        let (x, y) = (i % 9, i / 9);
        let (sx, sy) = board.segment_pos(x, y);
        let from_origin = board.segment((sx, sy));
        for k in 0..9usize {
            let (mx, my) = (sx + k % 3, sy + k / 3);
            // Every member rounds back to the same origin ...
            assert_eq!(board.segment_pos(mx, my), (sx, sy));
            // ... and requesting the segment from it enumerates the same
            // nine cells in the same order.
            assert_eq!(board.segment((mx, my)), from_origin);
        }
    }
}

#[test]
fn locator_finds_row_duplicate() {
    let mut board = Board::new();
    board.set(0, 0, Some(5));
    let err = board.placement_error((3, 0), Some(5)).unwrap();
    assert_eq!(err, PlaceError::AlreadyInRow);
    assert_eq!(board.locate_conflict((3, 0), Some(5), err), 0);
}

#[test]
fn end_to_end_scenario() {
    let mut board = Board::new();

    assert_eq!(board.place((0, 0), Some(1)), Ok(()));

    assert_eq!(board.place((0, 0), Some(1)), Err(PlaceError::AlreadyInCell));
    assert_eq!(
        board.locate_conflict((0, 0), Some(1), PlaceError::AlreadyInCell),
        0
    );

    assert_eq!(board.place((3, 0), Some(1)), Err(PlaceError::AlreadyInRow));
    assert_eq!(
        board.locate_conflict((3, 0), Some(1), PlaceError::AlreadyInRow),
        0
    );

    assert_eq!(board.place((0, 4), Some(1)), Err(PlaceError::AlreadyInCol));
    assert_eq!(
        board.locate_conflict((0, 4), Some(1), PlaceError::AlreadyInCol),
        0
    );

    assert_eq!(board.place((1, 1), Some(1)), Err(PlaceError::AlreadyInSeg));
    assert_eq!(
        board.locate_conflict((1, 1), Some(1), PlaceError::AlreadyInSeg),
        0
    );
}

fn assert_generated_board_is_consistent(board: &Board) {
    for i in 0..81usize {
        let (x, y) = (i % 9, i / 9);
        if let Some(Some(v)) = board.get(i) {
            assert!((1..=9).contains(&v));
            // With the cell itself cleared, re-placing its value must pass
            // the row, column, and segment checks.
            let mut probe = *board;
            probe.set(x, y, None);
            assert_eq!(probe.placement_error((x, y), Some(v)), None);
        }
    }
}

#[test]
fn generator_respects_the_invariant() {
    let board = generate_board(Strategy::TryRandom);
    assert_generated_board_is_consistent(&board);
    // The exhaustive strategy always populates the board: its first draw
    // lands in the empty grid unopposed.
    assert!(board.get(0usize).unwrap().is_some());
}

#[test]
fn sparse_generator_respects_the_invariant() {
    let board = generate_board(Strategy::TryRandomSparse);
    assert_generated_board_is_consistent(&board);
}
