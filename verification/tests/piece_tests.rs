use sol_chess::board::errors::SError;
use sol_chess::board::piece::Piece;

#[test]
fn piece_test_piece_parse() {
    assert_eq!(Piece::try_from("K").unwrap(), Piece::King);
    assert_eq!(Piece::try_from("King").unwrap(), Piece::King);
    assert_eq!(Piece::try_from("Q").unwrap(), Piece::Queen);
    assert_eq!(Piece::try_from("Queen").unwrap(), Piece::Queen);
    assert_eq!(Piece::try_from("B").unwrap(), Piece::Bishop);
    assert_eq!(Piece::try_from("Bishop").unwrap(), Piece::Bishop);
    assert_eq!(Piece::try_from("N").unwrap(), Piece::Knight);
    assert_eq!(Piece::try_from("Knight").unwrap(), Piece::Knight);
    assert_eq!(Piece::try_from("R").unwrap(), Piece::Rook);
    assert_eq!(Piece::try_from("Rook").unwrap(), Piece::Rook);
    assert_eq!(Piece::try_from("P").unwrap(), Piece::Pawn);
    assert_eq!(Piece::try_from("Pawn").unwrap(), Piece::Pawn);
}

#[test]
fn test_piece_to_string() {
    assert_eq!(Piece::King.to_string(), "K".to_string());
    assert_eq!(Piece::Queen.to_string(), "Q".to_string());
    assert_eq!(Piece::Bishop.to_string(), "B".to_string());
    assert_eq!(Piece::Knight.to_string(), "N".to_string());
    assert_eq!(Piece::Rook.to_string(), "R".to_string());
    assert_eq!(Piece::Pawn.to_string(), "P".to_string());
}

#[test]
fn piece_parse_rejects_other_text() {
    assert_eq!(Piece::try_from(""), Err(SError::InvalidNotation));
    assert_eq!(Piece::try_from("k"), Err(SError::InvalidNotation));
    assert_eq!(Piece::try_from("king"), Err(SError::InvalidNotation));
    assert_eq!(Piece::try_from("Kin"), Err(SError::InvalidNotation));
    assert_eq!(Piece::try_from("Kings"), Err(SError::InvalidNotation));
    assert_eq!(Piece::try_from("X"), Err(SError::InvalidNotation));
    assert_eq!(Piece::try_from("."), Err(SError::InvalidNotation));
}

#[test]
fn piece_from_char_knows_the_six_letters() {
    assert_eq!(Piece::from_char('K'), Some(Piece::King));
    assert_eq!(Piece::from_char('Q'), Some(Piece::Queen));
    assert_eq!(Piece::from_char('B'), Some(Piece::Bishop));
    assert_eq!(Piece::from_char('N'), Some(Piece::Knight));
    assert_eq!(Piece::from_char('R'), Some(Piece::Rook));
    assert_eq!(Piece::from_char('P'), Some(Piece::Pawn));
    assert_eq!(Piece::from_char('.'), None);
    assert_eq!(Piece::from_char('k'), None);
}

#[test]
fn piece_pretty_is_the_glyph() {
    assert_eq!(Piece::King.pretty(), "\u{2654}");
    assert_eq!(Piece::Queen.pretty(), "\u{2655}");
    assert_eq!(Piece::Rook.pretty(), "\u{2656}");
    assert_eq!(Piece::Bishop.pretty(), "\u{2657}");
    assert_eq!(Piece::Knight.pretty(), "\u{2658}");
    assert_eq!(Piece::Pawn.pretty(), "\u{2659}");
}

#[test]
fn error_messages() {
    assert_eq!(SError::InvalidBoard.to_string(), "invalid board");
    assert_eq!(SError::InvalidNotation.to_string(), "invalid notation");
    assert_eq!(SError::InvalidMove.to_string(), "invalid move");
}
