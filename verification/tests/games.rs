use libchess::errors::LibChessError as E;
use libchess::squares::{B1, C1, D1, E1, F1, G1, H1, C2, D2, E2, F2, G2, H2, B3, C3, D3, E3, F3, G3, H3, C4, D4, E4, F4, H4, A5, C5, D5, E5, F5, G5, H5, C6, D6, E6, F6, G6, H6, C7, D7, E7, F7, H7, B8, C8, D8, E8, F8, G8, H8};
use libchess::Color::{Black, White};
use libchess::PieceType::{Bishop, King, Knight, Pawn, Queen, Rook};
use libchess::{Action, BoardMove, ChessBoard, Color, Game, GameStatus, PieceMove, PieceType, Square, ZobristHasher};

fn mv(piece_type: PieceType, from: Square, to: Square) -> BoardMove {
    BoardMove::MovePiece(PieceMove::new(piece_type, from, to, None).unwrap())
}

fn castle_king_side() -> BoardMove {
    BoardMove::CastleKingSide
}

#[test]
fn as_fen() {
    let game_fen = "rnbq1bnr/pppkpppp/8/3p4/4P3/5N2/PPPP1PPP/RNBQKB1R w KQ - 2 3";
    let game = Game::from_fen(game_fen).unwrap();
    assert_eq!(game.as_fen(), game_fen);
}

#[test]
fn simple_check_mate() {
    let mut game = Game::default();
    let moves = vec![
        mv(Pawn, E2, E4),
        mv(Pawn, E7, E5),
        mv(Queen, D1, H5),
        mv(King, E8, E7),
        mv(Queen, H5, E5),
    ];
    for one in moves.iter() {
        game.make_move(Action::MakeMove(*one)).unwrap();
    }
    assert_eq!(game.get_game_status(), GameStatus::CheckMated(Color::Black));

    let mut game = Game::default();
    let moves = vec![
        mv(Pawn, E2, E4),
        mv(Pawn, E7, E5),
        mv(Bishop, F1, C4),
        mv(Knight, B8, C6),
        mv(Queen, D1, F3),
        mv(Knight, C6, D4),
        mv(Queen, F3, F7),
    ];
    for one in moves.iter() {
        game.make_move(Action::MakeMove(*one)).unwrap();
    }
    assert_eq!(game.get_game_status(), GameStatus::CheckMated(Color::Black));
}

#[test]
fn stalemate() {
    let mut game = Game::from_fen("3k4/3P4/4K3/8/8/8/8/8 w - - 0 1").unwrap();
    let moves = vec![mv(King, E6, D6)];
    for one in moves.iter() {
        game.make_move(Action::MakeMove(*one)).unwrap();
    }
    assert_eq!(game.get_game_status(), GameStatus::Stalemate);
}

#[test]
fn draw_declaration() {
    let mut game = Game::from_fen("8/8/8/p3k3/P7/4K3/8/8 w - - 0 1").unwrap();
    let moves = vec![
        mv(King, E3, D3),
        mv(King, E5, D5),
        mv(King, D3, E3),
        mv(King, D5, E5),
        mv(King, E3, D3),
        mv(King, E5, D5),
        mv(King, D3, E3),
        mv(King, D5, E5),
    ];
    for one in moves.iter() {
        game.make_move(Action::MakeMove(*one)).unwrap();
    }
    assert_eq!(game.get_game_status(), GameStatus::RepetitionDrawDeclared);
}

#[test]
fn resignation() {
    let mut game = Game::default();
    game.make_move(Action::Resign(White)).unwrap();
    assert_eq!(game.get_game_status(), GameStatus::Resigned(White));
}

#[test]
fn theoretical_draw() {
    let game = Game::from_fen("4k3/8/6b1/8/8/3NK3/8/8 w - - 0 1").unwrap();
    assert_eq!(game.get_game_status(), GameStatus::TheoreticalDrawDeclared);
}

fn albin_winawer_moves() -> Vec<BoardMove> {
    vec![
        mv(Pawn, E2, E4), // 1.
        mv(Pawn, E7, E5),
        mv(Knight, G1, F3), // 2.
        mv(Knight, B8, C6),
        mv(Bishop, F1, C4), // 3.
        mv(Bishop, F8, C5),
        mv(Pawn, C2, C3), // 4.
        mv(Knight, G8, F6),
        castle_king_side(), // 5.
        mv(Knight, F6, E4),
        mv(Bishop, C4, D5), // 6.
        mv(Knight, E4, F2),
        mv(Rook, F1, F2), // 7.
        mv(Bishop, C5, F2),
        mv(King, G1, F2), // 8.
        mv(Knight, C6, E7),
        mv(Queen, D1, B3), // 9.
        castle_king_side(),
        mv(Bishop, D5, E4), // 10.
        mv(Pawn, D7, D5),
        mv(Bishop, E4, C2), // 11.
        mv(Pawn, E5, E4),
        mv(Knight, F3, E1), // 12.
        mv(Knight, E7, G6),
        mv(Pawn, C3, C4), // 13.
        mv(Pawn, D5, D4),
        mv(Queen, B3, G3), // 14.
        mv(Pawn, F7, F5),
        mv(King, F2, G1), // 15.
        mv(Pawn, C7, C5),
        mv(Pawn, D2, D3), // 16.
        mv(Pawn, F5, F4),
        mv(Queen, G3, F2), // 17.
        mv(Pawn, E4, E3),
        mv(Queen, F2, F3), // 18.
        mv(Queen, D8, H4),
        mv(Queen, F3, D5), // 19.
        mv(King, G8, H8),
        mv(Knight, E1, F3), // 20.
        mv(Queen, H4, F2),
        mv(King, G1, H1), // 21.
        mv(Knight, G6, H4),
        mv(Queen, D5, G5), // 22.
        mv(Bishop, C8, H3),
    ]
}

#[test]
fn albin_winawer_1896() {
    let mut game = Game::default();
    let moves = albin_winawer_moves();
    for m in moves.iter() {
        game.make_move(Action::MakeMove(*m)).unwrap();
    }
    game.make_move(Action::Resign(White)).unwrap();

    assert_eq!(game.get_game_status(), GameStatus::Resigned(White));
}

#[test]
fn karpov_korchnoi_1974() {
    let mut game = Game::default();
    let moves = vec![
        "e2e4", "c7c5", // 1.
        "Ng1f3", "d7d6", // 2.
        "d2d4", "c5d4", // 3.
        "Nf3d4", "Ng8f6", // 4.
        "Nb1c3", "g7g6", // 5.
        "Bc1e3", "Bf8g7", // 6.
        "f2f3", "Nb8c6", // 7.
        "Qd1d2", "O-O", // 8.
        "Bf1c4", "Bc8d7", // 9.
        "h2h4", "Ra8c8", // 10.
        "Bc4b3", "Nc6e5", // 11.
        "O-O-O", "Ne5c4", // 12.
        "Bb3c4", "Rc8c4", // 13.
        "h4h5", "Nf6h5", // 14.
        "g2g4", "Nh5f6", // 15.
        "Nd4e2", "Qd8a5", // 16.
        "Be3h6", "Bg7h6", // 17.
        "Qd2h6", "Rf8c8", // 18.
        "Rd1d3", "Rc4c5", // 19.
        "g4g5", "Rc5g5", // 20.
        "Rd3d5", "Rg5d5", // 21.
        "Nc3d5", "Rc8e8", // 22.
        "Ne2f4", "Bd7c6", // 23.
        "e4e5", "Bc6d5", // 24.
        "e5f6", "e7f6", // 25.
        "Qh6h7", "Kg8f8", // 26.
        "Qh7h8", // 27.
    ];
    for m in moves.iter() {
        game.make_move(Action::MakeMove(BoardMove::from_str(m).unwrap())).unwrap();
    }
    game.make_move(Action::Resign(Black)).unwrap();

    assert_eq!(game.get_game_status(), GameStatus::Resigned(Black));
}

#[test]
fn hashes() {
    let mut game = Game::default();
    let moves = albin_winawer_moves();
    for one in moves.iter() {
        game.make_move(Action::MakeMove(*one)).unwrap();
    }

    let zobrist = ZobristHasher::new();
    let direct_calculated_hash = zobrist.calculate_position_hash(&game.get_position());
    let live_updating_hash = game.get_position().get_hash();
    assert_eq!(direct_calculated_hash, live_updating_hash);
}

#[test]
fn de_riviere_paul_morphy_1863() {
    let mut game = Game::default();
    let moves = vec![
        mv(Pawn, E2, E4), // 1.
        mv(Pawn, E7, E5),
        mv(Knight, G1, F3), // 2.
        mv(Knight, B8, C6),
        mv(Bishop, F1, C4), // 3.
        mv(Knight, G8, F6),
        mv(Knight, F3, G5), // 4.
        mv(Pawn, D7, D5),
        mv(Pawn, E4, D5), // 5.
        mv(Knight, C6, A5),
        mv(Pawn, D2, D3), // 6.
        mv(Pawn, H7, H6),
        mv(Knight, G5, F3), // 7.
        mv(Pawn, E5, E4),
        mv(Queen, D1, E2), // 8.
        mv(Knight, A5, C4),
        mv(Pawn, D3, C4), // 9.
        mv(Bishop, F8, C5),
        mv(Pawn, H2, H3), // 10.
        castle_king_side(),
        mv(Knight, F3, H2), // 11.
        mv(Knight, F6, H7),
        mv(Knight, B1, D2), // 12.
        mv(Pawn, F7, F5),
        mv(Knight, D2, B3), // 13.
        mv(Bishop, C5, D6),
        castle_king_side(), // 14.
        mv(Bishop, D6, H2),
        mv(King, G1, H2), // 15.
        mv(Pawn, F5, F4),
        mv(Queen, E2, E4), // 16.
        mv(Knight, H7, G5),
        mv(Queen, E4, D4), // 17.
        mv(Knight, G5, F3),
        mv(Pawn, G2, F3), // 18.
        mv(Queen, D8, H4),
        mv(Rook, F1, H1), // 19.
        mv(Bishop, C8, H3),
        mv(Bishop, C1, D2), // 20.
        mv(Rook, F8, F6),
    ];
    for m in moves.iter() {
        game.make_move(Action::MakeMove(*m)).unwrap();
    }
    game.make_move(Action::Resign(White)).unwrap();

    println!("{}", game.get_position().render_straight());
    println!("{}", game.get_action_history().to_string());
    assert_eq!(
        game.get_action_history().to_string(),
        String::from("1.e4 e5 2.Nf3 Nc6 3.Bc4 Nf6 4.Ng5 d5 5.exd5 Na5 6.d3 h6 7.Nf3 e4 8.Qe2 Nxc4 9.dxc4 Bc5 10.h3 O-O 11.Nh2 Nh7 12.Nd2 f5 13.Nb3 Bd6 14.O-O Bxh2+ 15.Kxh2 f4 16.Qxe4 Ng5 17.Qd4 Nf3+ 18.gxf3 Qh4 19.Rh1 Bxh3 20.Bd2 Rf6 ")
    );
}

#[test]
fn draw_offers_and_refusals() {
    let mut game = Game::default();
    assert!(matches!(game.make_move(Action::AcceptDraw), Err(E::IllegalActionDetected)));
    game.make_move(Action::OfferDraw(White)).unwrap();
    assert_eq!(game.get_game_status(), GameStatus::DrawOffered(White));
    assert!(matches!(game.make_move(Action::MakeMove(mv(Pawn, E2, E4))), Err(E::IllegalActionDetected)));
    game.make_move(Action::DeclineDraw).unwrap();
    assert_eq!(game.get_game_status(), GameStatus::Ongoing);
    assert!(matches!(game.make_move(Action::MakeMove(mv(Pawn, E2, E5))), Err(E::IllegalActionDetected)));
    game.make_move(Action::OfferDraw(Black)).unwrap();
    game.make_move(Action::AcceptDraw).unwrap();
    assert_eq!(game.get_game_status(), GameStatus::DrawAccepted);
    assert!(matches!(game.make_move(Action::Resign(White)), Err(E::GameIsAlreadyFinished)));
    assert_eq!(
        game.get_metadata().get_value(String::from("Result")),
        Some(&String::from("1/2-1/2"))
    );
    assert_eq!(
        game.get_metadata().get_value(String::from("White")),
        Some(&String::from("Player 1"))
    );
}

#[test]
fn position_counter_and_history() {
    let mut game = Game::default();
    let start = game.get_position();
    assert_eq!(game.get_position_counter(start), 1);
    game.make_move(Action::MakeMove(mv(Knight, G1, F3))).unwrap();
    game.make_move(Action::MakeMove(mv(Knight, G8, F6))).unwrap();
    game.make_move(Action::MakeMove(mv(Knight, F3, G1))).unwrap();
    game.make_move(Action::MakeMove(mv(Knight, F6, G8))).unwrap();
    assert_eq!(game.get_position_counter(start), 2);
    assert_eq!(game.get_action_history().get_moves().len(), 4);
    assert_eq!(game.get_action_history().get_positions().len(), 5);
    assert_eq!(game.get_side_to_move(), White);
    assert_eq!(game.get_move_number(), 3);
    assert_eq!(game.get_moves_since_capture_or_pawn_move(), 4);
    assert_eq!(game.get_legal_moves().len(), 20);
    let board: ChessBoard = game.get_position();
    assert_eq!(board.as_fen(), "rnbqkbnr/pppppppp/8/8/8/8/PPPPPPPP/RNBQKBNR w KQkq - 4 3");
}

#[test]
fn status_descriptions() {
    assert_eq!(GameStatus::Ongoing.to_string(), "the game is ongoing");
    assert_eq!(GameStatus::CheckMated(Black).to_string(), "white won by checkmate");
    assert_eq!(GameStatus::Resigned(White).to_string(), "black won by resignation");
    assert_eq!(GameStatus::DrawOffered(White).to_string(), "draw offered by white");
    assert_eq!(GameStatus::FiftyMovesDrawDeclared.to_string(), "draw declared by a 50 moves rule");
    assert_eq!(GameStatus::Stalemate.to_string(), "stalemate");
}
