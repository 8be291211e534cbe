use sudoru::Board;

const EMPTY_ROW: &str = ". . . | . . . | . . . \n";
const SEPARATOR: &str = "------+-------+------\n";

#[test]
fn empty_board_text() {
    let board = Board::new();
    let expected = format!(
        "{r}{r}{r}{s}{r}{r}{r}{s}{r}{r}{r}",
        r = EMPTY_ROW,
        s = SEPARATOR
    );
    assert_eq!(board.to_text(), expected);
}

#[test]
fn board_text_shows_digits() {
    let mut board = Board::new();
    board.set(0, 0, Some(5));
    board.set(4, 0, Some(1));
    board.set(8, 8, Some(9));

    let text = board.to_text();
    let lines: Vec<&str> = text.lines().collect();
    assert_eq!(lines.len(), 11);
    assert_eq!(lines[0], "5 . . | . 1 . | . . . ");
    assert_eq!(lines[3], "------+-------+------");
    assert_eq!(lines[10], ". . . | . . . | . . 9 ");
}
