use libchess::squares::{A1, E1, E2, A3, E3, A4, C4, D4, E4, F4, H4, E5, E6, E8, H8};
use libchess::errors::LibChessError;
use libchess::{BoardBuilder, ChessBoard, File, PieceType, Rank, Square};

#[test]
fn board_files_to_index_test() {
    assert_eq!(File::A.to_index(), 0);
}

#[test]
fn board_files_from_index_test() {
    assert_eq!(File::from_index(5).unwrap(), File::F);
}

#[test]
fn board_files_from_index_test_fails() {
    assert!(File::from_index(10).is_err());
}

#[test]
fn left_for_file_fails() {
    assert!(File::A.left().is_err());
}

#[test]
fn left_for_file() {
    assert_eq!(File::B.left().unwrap(), File::A);
}

#[test]
fn right_for_file_fails() {
    assert!(File::H.right().is_err());
}

#[test]
fn right_for_file() {
    assert_eq!(File::G.right().unwrap(), File::H);
}

#[test]
fn board_files_init_from_str() {
    assert_eq!(File::from_str("g").unwrap(), File::G);
}

#[test]
fn board_files_init_from_str_fails() {
    assert!(File::from_str("bbb").is_err());
    assert!(File::from_str("0").is_err());
    assert!(File::from_str("9").is_err());
    assert!(File::from_str("-1").is_err());
}

#[test]
fn board_ranks_to_index_test() {
    assert_eq!(Rank::First.to_index(), 0);
}

#[test]
fn board_ranks_from_index_test() {
    assert_eq!(Rank::from_index(5).unwrap(), Rank::Sixth);
}

#[test]
fn board_ranks_from_index_test_fails() {
    assert!(Rank::from_index(10).is_err());
}

#[test]
fn down_for_rank_fails() {
    assert!(Rank::First.down().is_err());
}

#[test]
fn down_for_rank() {
    assert_eq!(Rank::Second.down().unwrap(), Rank::First);
}

#[test]
fn up_for_rank_fails() {
    assert!(Rank::Eighth.up().is_err());
}

#[test]
fn up_for_rank() {
    assert_eq!(Rank::Seventh.up().unwrap(), Rank::Eighth);
}

#[test]
fn board_ranks_init_from_str() {
    assert_eq!(Rank::from_str("1").unwrap(), Rank::First);
}

#[test]
fn board_ranks_init_from_str_fails() {
    assert!(Rank::from_str("123").is_err());
    assert!(Rank::from_str("0").is_err());
    assert!(Rank::from_str("9").is_err());
    assert!(Rank::from_str("-9").is_err());
    assert!(Rank::from_str("a").is_err());
}

#[test]
fn squares_create_from_string() {
    assert_eq!(Square::from_str("e2").unwrap(), libchess::squares::E2);
}

#[test]
fn squares_create_from_string_fails() {
    assert!(Square::from_str("e20").is_err());
    assert!(Square::from_str("e9").is_err());
    assert!(Square::from_str("z4").is_err());
    assert!(Square::from_str("b0").is_err());
}

#[test]
fn squares_neighbor_squares() {
    assert_eq!(E4.up().unwrap(), E5);
    assert_eq!(E4.down().unwrap(), E3);
    assert_eq!(E4.left().unwrap(), D4);
    assert_eq!(E4.right().unwrap(), F4);
}

#[test]
fn squares_test_light_dark() {
    assert_eq!(A1.is_light(), false);
    assert_eq!(E4.is_light(), true);
    assert_eq!(A3.is_dark(), true);
    assert_eq!(E6.is_dark(), false);
}

#[test]
fn square_create_from_string() {
    assert_eq!(Square::from_str("e2").unwrap(), Square::E2);
}

#[test]
fn square_create_from_string_fails() {
    assert!(Square::from_str("e20").is_err());
    assert!(Square::from_str("e9").is_err());
    assert!(Square::from_str("z4").is_err());
    assert!(Square::from_str("b0").is_err());
}

#[test]
fn square_neighbor_squares() {
    assert_eq!(Square::E4.up().unwrap(), Square::E5);
    assert_eq!(Square::E4.down().unwrap(), Square::E3);
    assert_eq!(Square::E4.left().unwrap(), Square::D4);
    assert_eq!(Square::E4.right().unwrap(), Square::F4);
}

#[test]
fn square_test_light_dark() {
    assert_eq!(Square::A1.is_light(), false);
    assert_eq!(Square::E4.is_light(), true);
    assert_eq!(Square::A3.is_dark(), true);
    assert_eq!(Square::E6.is_dark(), false);
}

#[test]
fn square_names_and_indices() {
    assert_eq!(Square::new(63).unwrap(), Square::H8);
    assert!(Square::new(64).is_err());
    assert_eq!(Square::H8.to_string(), "h8");
    assert_eq!(Square::from_rank_file(Rank::Fourth, File::C), Square::C4);
    assert_eq!(Square::C4.get_rank(), Rank::Fourth);
    assert_eq!(Square::C4.get_file(), File::C);
    assert_eq!(Square::A1.offsets_from(Square::C4), (3, 2));
    assert!(Square::H4.right().is_err());
    assert!(Square::A4.left().is_err());
    assert!(Square::E8.up().is_err());
    assert!(Square::E1.down().is_err());
    assert_eq!(File::C.to_string(), "c");
    assert_eq!(Rank::Fourth.to_string(), "4");
}

#[test]
fn parse_through_from_str() {
    assert_eq!("e".parse::<File>().unwrap(), File::E);
    assert!(matches!("i".parse::<File>(), Err(LibChessError::InvalidBoardFileName)));
    assert_eq!("4".parse::<Rank>().unwrap(), Rank::Fourth);
    assert!(matches!("9".parse::<Rank>(), Err(LibChessError::InvalidBoardRankName)));
    assert_eq!("e4".parse::<Square>().unwrap(), E4);
    assert!(matches!("e9".parse::<Square>(), Err(LibChessError::InvalidSquareRepresentation)));
    assert_eq!("n".parse::<PieceType>().unwrap(), PieceType::Knight);
    assert_eq!("".parse::<PieceType>().unwrap(), PieceType::Pawn);
    assert!(matches!("x".parse::<PieceType>(), Err(LibChessError::InvalidPeaceRepresentation)));
    let start = "rnbqkbnr/pppppppp/8/8/8/8/PPPPPPPP/RNBQKBNR w KQkq - 0 1";
    assert!(start.parse::<BoardBuilder>().is_ok());
    assert!(matches!("8/8 w".parse::<BoardBuilder>(), Err(LibChessError::InvalidFENString { .. })));
    assert_eq!(start.parse::<ChessBoard>().unwrap().as_fen(), start);
    assert!(matches!("garbage".parse::<ChessBoard>(), Err(LibChessError::InvalidFENString { .. })));
}

#[test]
fn readable_square_and_fen_texts() {
    assert!(Square::is_readable("e4"));
    assert!(Square::is_readable("e"));
    assert!(Square::is_readable("é4"));
    assert!(!Square::is_readable("é"));
    let start = "rnbqkbnr/pppppppp/8/8/8/8/PPPPPPPP/RNBQKBNR w KQkq - 0 1";
    assert!(BoardBuilder::is_readable(start));
    assert!(BoardBuilder::is_readable("garbage"));
    assert!(!BoardBuilder::is_readable("rnbqkbnr/pppppppp/8/8/8/8/PPPPPPPP/RNBQKBNR w KQkq é 0 1"));
    assert!(BoardBuilder::is_readable("rnbqkbnr/pppppppp/8/8/8/8/PPPPPPPP/RNBQKBNR w KQkq € 0 1"));
    let b = BoardBuilder::from_str("rnbqkbnr/pppppppp/8/8/8/8/PPPPPPPP/RNBQKBNR w KQkq € 0 1").unwrap();
    assert_eq!(b.get_en_passant(), None);
}
