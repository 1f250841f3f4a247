use libchess::errors::LibChessError as E;
use libchess::pgn::pgn_string;
use libchess::squares::{
    A4, A6, A7, B3, B5, B7, B8, C2, C3, C4, C6, D1, D2, D4, D6, D7, E1, E2, E4, E5, E7, F1, F3, F6, F7, F8,
    G1, G8, H2, H3, H5,
};
use libchess::Color::{Black, White};
use libchess::PieceType::{Bishop, Knight, Pawn, Queen, Rook};
use libchess::{Action, BoardMove, Game, GameMetadata, GameStatus, PieceMove, PieceType, Square};

fn mv(piece_type: PieceType, from: Square, to: Square) -> BoardMove {
    BoardMove::MovePiece(PieceMove::new(piece_type, from, to, None).unwrap())
}

fn scholars_mate() -> Game {
    let mut game = Game::default();
    for one in [
        mv(Pawn, E2, E4),
        mv(Pawn, E7, E5),
        mv(Queen, D1, H5),
        mv(Knight, B8, C6),
        mv(Bishop, F1, C4),
        mv(Knight, G8, F6),
        mv(Queen, H5, F7),
    ] {
        game.make_move(Action::MakeMove(one)).unwrap();
    }
    game
}

const SCHOLARS_MATE_PGN: &str = "[Event \"?\"]\n[Site \"?\"]\n[Date \"?\"]\n[Round \"?\"]\n[White \"Player 1\"]\n[Black \"Player 2\"]\n[Result \"1-0\"]\n\n1.e4 e5 2.Qh5 Nc6 3.Bc4 Nf6 4.Qxf7# 1-0";

#[test]
fn pgn_of_a_checkmate() {
    let game = scholars_mate();
    assert_eq!(game.get_game_status(), GameStatus::CheckMated(Black));
    assert_eq!(game.as_pgn(), SCHOLARS_MATE_PGN);
}

#[test]
fn pgn_read_checkmate() {
    let game = Game::from_pgn(SCHOLARS_MATE_PGN).unwrap();
    assert_eq!(game.get_game_status(), GameStatus::CheckMated(Black));
    assert_eq!(game.get_position(), scholars_mate().get_position());
    assert_eq!(game.get_action_history().get_moves().len(), 7);
}

#[test]
fn pgn_read_tags_and_resignation() {
    let pgn = "[Event \"Club match\"]\n[Site \"Riga\"]\n[Annotator \"Someone\"]\n[Result \"0-1\"]\n\n1. e4 e5 2. Nf3 Nc6 0-1\n";
    let game = Game::from_pgn(pgn).unwrap();
    assert_eq!(game.get_game_status(), GameStatus::Resigned(White));
    assert_eq!(game.get_metadata().get_value("Event".to_string()).unwrap(), "Club match");
    assert_eq!(game.get_metadata().get_value("Site".to_string()).unwrap(), "Riga");
    assert_eq!(game.get_metadata().get_value("Annotator".to_string()).unwrap(), "Someone");
    assert_eq!(game.get_metadata().get_value("Result".to_string()).unwrap(), "0-1");
    assert_eq!(game.get_metadata().get_value("White".to_string()).unwrap(), "Player 1");
    assert_eq!(game.get_action_history().get_moves().len(), 4);
    assert_eq!(
        game.as_fen(),
        "r1bqkbnr/pppp1ppp/2n5/4p3/4P3/5N2/PPPP1PPP/RNBQKB1R w KQkq - 2 3"
    );
}

#[test]
fn pgn_read_draw_and_black_resignation() {
    let game = Game::from_pgn("[Event \"?\"]\n\n1.e4 e5 1/2-1/2").unwrap();
    assert_eq!(game.get_game_status(), GameStatus::DrawAccepted);
    assert_eq!(game.get_metadata().get_value("Result".to_string()).unwrap(), "1/2-1/2");
    let game = Game::from_pgn("[Event \"?\"]\n\n1.d4 1-0").unwrap();
    assert_eq!(game.get_game_status(), GameStatus::Resigned(Black));
    assert_eq!(game.get_metadata().get_value("Result".to_string()).unwrap(), "1-0");
}

#[test]
fn pgn_read_errors() {
    // no empty line before the moves
    assert!(matches!(Game::from_pgn("[Event \"?\"]\n1.e4 e5 1-0"), Err(E::InvalidPGNString)));
    // a move that is not legal
    assert!(matches!(Game::from_pgn("[Event \"?\"]\n\n1.e5 1-0"), Err(E::InvalidPGNString)));
    // a game that goes on without a result
    assert!(matches!(Game::from_pgn("[Event \"?\"]\n\n1.e4 e5"), Err(E::InvalidPGNString)));
    // a move after the mate
    assert!(matches!(
        Game::from_pgn("[Event \"?\"]\n\n1.f3 e5 2.g4 Qh4# 3.a3 0-1"),
        Err(E::InvalidPGNString)
    ));
}

#[test]
fn pgn_round_trip() {
    let mut game = Game::default();
    for one in [mv(Pawn, E2, E4), mv(Pawn, E7, E5), mv(Knight, G1, F3)] {
        game.make_move(Action::MakeMove(one)).unwrap();
    }
    game.make_move(Action::Resign(White)).unwrap();
    game.get_metadata_mut().set_value("Event".to_string(), "Casual game".to_string());
    let text = game.as_pgn();
    let read = Game::from_pgn(&text).unwrap();
    assert_eq!(read.get_position(), game.get_position());
    assert_eq!(read.get_game_status(), GameStatus::Resigned(White));
    assert_eq!(read.as_pgn(), text);
}

#[test]
fn pgn_long_movetext_is_wrapped() {
    let mut game = Game::default();
    let moves = [
        mv(Pawn, E2, E4),
        mv(Pawn, E7, E5),
        mv(Knight, G1, F3),
        mv(Knight, B8, C6),
        mv(Bishop, F1, B5),
        mv(Pawn, A7, A6),
        mv(Bishop, B5, A4),
        mv(Knight, G8, F6),
        BoardMove::CastleKingSide,
        mv(Bishop, F8, E7),
        mv(Rook, F1, E1),
        mv(Pawn, B7, B5),
        mv(Bishop, A4, B3),
        mv(Pawn, D7, D6),
        mv(Pawn, C2, C3),
        BoardMove::CastleKingSide,
        mv(Pawn, H2, H3),
        mv(Knight, C6, B8),
        mv(Pawn, D2, D4),
        mv(Knight, B8, D7),
    ];
    for one in moves {
        game.make_move(Action::MakeMove(one)).unwrap();
    }
    let history = game.get_action_history().to_string();
    assert_eq!(
        history,
        "1.e4 e5 2.Nf3 Nc6 3.Bb5 a6 4.Ba4 Nf6 5.O-O Be7 6.Re1 b5 7.Bb3 d6 8.c3 O-O 9.h3 Nb8 10.d4 Nbd7 "
    );
    let text = game.as_pgn();
    let movetext = text.split("\n\n").nth(1).unwrap();
    let lines: Vec<&str> = movetext.split('\n').collect();
    assert!(lines.len() >= 2);
    assert!(lines.iter().all(|line| line.len() <= 85));
    assert_eq!(lines.join(" "), format!("{}?", history));
    let read = Game::from_pgn(&format!("{}1-0", &text[..text.len() - 1])).unwrap();
    assert_eq!(read.get_position(), game.get_position());
    assert_eq!(read.get_game_status(), GameStatus::Resigned(Black));
}

#[test]
fn pgn_string_joins_lines() {
    let tags = GameMetadata::default();
    let lines = vec!["1.e4 e5".to_string(), "2.Nf3 Nc6".to_string()];
    assert_eq!(
        pgn_string(&tags, &lines),
        "[Event \"?\"]\n[Site \"?\"]\n[Date \"?\"]\n[Round \"?\"]\n[White \"Player 1\"]\n[Black \"Player 2\"]\n[Result \"?\"]\n\n1.e4 e5\n2.Nf3 Nc6 ?"
    );
    let mut tags = GameMetadata::default();
    tags.set_value("Annotator".to_string(), "A".to_string());
    tags.set_value("ECO".to_string(), "C20".to_string());
    assert_eq!(
        pgn_string(&tags, &Vec::new()),
        "[Event \"?\"]\n[Site \"?\"]\n[Date \"?\"]\n[Round \"?\"]\n[White \"Player 1\"]\n[Black \"Player 2\"]\n[Result \"?\"]\n[Annotator \"A\"]\n[ECO \"C20\"]\n\n ?"
    );
}

#[test]
fn pgn_parts_replay() {
    let pairs = vec![(Some("Event".to_string()), Some("Test".to_string())), (Some("Site".to_string()), None)];
    let tokens = vec!["e4".to_string(), "e5".to_string()];
    let game = Game::from_pgn_parts(&pairs, &tokens, Some("0-1".to_string())).unwrap();
    assert_eq!(game.get_game_status(), GameStatus::Resigned(White));
    assert_eq!(game.get_metadata().get_value("Event".to_string()).unwrap(), "Test");
    assert_eq!(game.get_metadata().get_value("Site".to_string()).unwrap(), "?");
    assert!(matches!(
        Game::from_pgn_parts(&pairs, &tokens, Some("2-0".to_string())),
        Err(E::InvalidPGNString)
    ));
    assert!(matches!(
        Game::from_pgn_parts(&pairs, &vec!["e4".to_string(), "e4".to_string()], None),
        Err(E::InvalidPGNString)
    ));
}

const RESIGNED_GAME_PGN: &str = "[Event \"Casual game\"]\n[Site \"?\"]\n[Date \"2024.01.01\"]\n[Round \"1\"]\n[White \"A\"]\n[Black \"B\"]\n[Result \"1-0\"]\n\n1. e4 e5 2. Nf3 Nc6 3. Bb5 a6 4. Ba4 Nf6 5. O-O Be7 6. Re1 b5 7. Bb3 d6\n8. c3 O-O 9. h3 Nb8 10. d4 Nbd7 1-0\n";

#[test]
fn pgn_read() {
    let game = Game::from_pgn(SCHOLARS_MATE_PGN).unwrap();
    assert_eq!(game.get_game_status(), GameStatus::CheckMated(Black));
    let game = Game::from_pgn(RESIGNED_GAME_PGN).unwrap();
    assert_eq!(game.get_game_status(), GameStatus::Resigned(Black));
}

#[test]
fn to_pgn_string() {
    let game = Game::from_pgn(RESIGNED_GAME_PGN).unwrap();
    let read_game = Game::from_pgn(&game.as_pgn()).unwrap();
    assert_eq!(read_game.get_position(), game.get_position());
}
