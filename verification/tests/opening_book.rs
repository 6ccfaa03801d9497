use chess_engine::board::Board;
use chess_engine::opening::OpeningBook;

#[test]
fn test_opening_book_basic() {
    let book = OpeningBook::new();

    let board = Board::new();
    let result = book.lookup(&board);
    assert!(result.is_some());
    let recommended = result.unwrap();
    assert!(recommended == "e4" || recommended == "d4" || recommended == "c4");

    let mut board = Board::new();
    for m in &["e4", "e5", "Nf3", "Nc6"] {
        board.parse_and_play_token(m).unwrap();
    }
    let result = book.lookup(&board);
    assert!(result.is_some());
    let recommended = result.unwrap();
    assert!(recommended == "Bc4" || recommended == "Bb5");

    let mut board = Board::new();
    for m in &["e4", "c5"] {
        board.parse_and_play_token(m).unwrap();
    }
    assert_eq!(book.lookup(&board), Some("Nf3".to_string()));
}

#[test]
fn test_opening_book_not_found() {
    let book = OpeningBook::new();

    let mut board = Board::new();
    for m in &["a4", "h5"] {
        board.parse_and_play_token(m).unwrap();
    }
    assert_eq!(book.lookup(&board), None);
}
