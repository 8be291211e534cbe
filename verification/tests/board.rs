use sudoru::board::PlaceError;
use sudoru::Board;
use sudoru::Position;

#[test]
fn board_row() {
    let mut board = Board::new();

    for i in 1..9 {
        board.cells[i] = Some(i as u8);
    }

    let row = board.row(0usize);

    assert_eq!(
        row,
        vec![
            None,
            Some(1),
            Some(2),
            Some(3),
            Some(4),
            Some(5),
            Some(6),
            Some(7),
            Some(8),
        ]
    );
}

#[test]
fn board_col() {
    let mut board = Board::new();

    for i in 1..9 {
        board.set(1, i, Some(i as u8));
    }

    let col = board.col(1usize);

    assert_eq!(
        col,
        vec![
            None,
            Some(1),
            Some(2),
            Some(3),
            Some(4),
            Some(5),
            Some(6),
            Some(7),
            Some(8),
        ]
    );
}

#[test]
fn board_insert() {
    let mut board = Board::new();
    let value = Some(1);

    board.cells[0] = value;

    let result = board.place_at((2, 0), value);
    assert_eq!(result, Err(PlaceError::AlreadyInRow));

    let result = board.place_at((0, 2), value);
    assert_eq!(result, Err(PlaceError::AlreadyInCol));

    let result = board.place_at((1, 1), value);
    assert_eq!(result, Err(PlaceError::AlreadyInSeg));
}

#[test]
fn board_get() {
    let mut board = Board::new();
    let value = Some(2);

    board.cells[10] = value;

    assert_eq!(board.get((1, 1)), Some(value));

    let value = Some(3);
    board.set(3, 3, value);

    assert_eq!(board.get((3, 3)), Some(value));
}

#[test]
fn board_dimensions() {
    let board = Board::new();
    assert_eq!(board.width(), 9);
    assert_eq!(board.height(), 9);
    assert_eq!(board.size(), 81);
    assert_eq!(board.index(4, 7), 4 + 7 * 9);
    assert_eq!(board.cell_pos(67), (4, 7));
    assert_eq!(board.segment_pos(1, 2), (0, 0));
    assert_eq!(board.segment_pos(4, 8), (3, 6));
}

#[test]
fn board_get_out_of_range() {
    let board = Board::new();
    assert_eq!(board.get(200usize), None);
    assert_eq!(board.get(80usize), Some(None));
}

#[test]
fn position_round_trip() {
    for i in 0..81usize {
        let (x, y) = i.coords();
        assert!(x < 9 && y < 9);
        assert_eq!((x, y).index(), i);
        assert_eq!(i.index(), i);
    }
    assert_eq!(79usize.coords(), (7, 8));
    assert_eq!((4usize, 5usize).segment(), (3, 3));
    assert_eq!(40usize.segment(), (3, 3));
}

#[test]
fn clearing_cells() {
    let mut board = Board::new();

    // Clearing an already empty cell is a refused no-op.
    assert_eq!(board.place((0, 0), None), Err(PlaceError::AlreadyInCell));

    // Clearing a filled cell succeeds even when its row holds other gaps.
    board.set(0, 0, Some(5));
    assert_eq!(board.place((0, 0), None), Ok(()));
    assert_eq!(board.get((0, 0)), Some(None));
}

#[test]
fn segment_views() {
    let mut board = Board::new();
    for k in 0..9u8 {
        board.set(3 + (k as usize) % 3, 3 + (k as usize) / 3, Some(k + 1));
    }

    let seg = board.segment((4, 4));
    assert_eq!(
        seg,
        vec![
            Some(1),
            Some(2),
            Some(3),
            Some(4),
            Some(5),
            Some(6),
            Some(7),
            Some(8),
            Some(9),
        ]
    );
}
