use libchess::errors::LibChessError as E;
use libchess::squares::{A1, B1, C1, D1, E1, G1, A2, E2, G2, A3, B3, C3, D3, E3, F3, A4, D4, E4, G4, D5, E5, C6, D6, E6, F6, H6, A7, B7, D7, E7, A8, E8, G8, H8};
use libchess::Color::{Black, White};
use libchess::PieceType::{Bishop, King, Knight, Pawn, Queen, Rook};
use libchess::{
    BoardBuilder, BoardMove, BoardStatus, CastlingRights, ChessBoard, Color, DisplayAmbiguityType,
    MovePropertiesOnBoard, Piece, PieceMove, PieceType, Square, ZobristHasher,
};

fn mv(piece_type: PieceType, from: Square, to: Square) -> BoardMove {
    BoardMove::MovePiece(PieceMove::new(piece_type, from, to, None).unwrap())
}

fn mv_promote(piece_type: PieceType, from: Square, to: Square, promotion: PieceType) -> BoardMove {
    BoardMove::MovePiece(PieceMove::new(piece_type, from, to, Some(promotion)).unwrap())
}

fn board(fen: &str) -> ChessBoard {
    ChessBoard::from_fen(fen).unwrap()
}

fn noindent(text: &str) -> String {
    text.replace("\n", "").replace(" ", "")
}

#[test]
fn board_builders_create_from_string() {
    assert_eq!(
        BoardBuilder::default().to_string(),
        "rnbqkbnr/pppppppp/8/8/8/8/PPPPPPPP/RNBQKBNR w KQkq - 0 1"
    );

    let fen = "rnbq1bnr/pppkpppp/8/3p4/4P3/5N2/PPPP1PPP/RNBQKB1R w KQ - 2 3";
    assert_eq!(BoardBuilder::from_str(fen).unwrap().to_string(), fen);

    let fen = "8/8/5k2/8/3Q2N1/5K2/8/8 b - - 0 1";
    assert_eq!(BoardBuilder::from_str(fen).unwrap().to_string(), fen);

    let fen = "rnbqkbnr/pppp1ppp/8/4p3/4P3/8/PPPP1PPP/RNBQKBNR w KQkq e6 0 1";
    assert_eq!(BoardBuilder::from_str(fen).unwrap().to_string(), fen);
}

#[test]
fn chess_board_builder_create_from_string() {
    assert_eq!(
        BoardBuilder::default().to_string(),
        "rnbqkbnr/pppppppp/8/8/8/8/PPPPPPPP/RNBQKBNR w KQkq - 0 1"
    );
    assert_eq!(
        BoardBuilder::from_str("rnbq1bnr/pppkpppp/8/3p4/4P3/5N2/PPPP1PPP/RNBQKB1R w KQ - 2 3")
            .unwrap()
            .to_string(),
        "rnbq1bnr/pppkpppp/8/3p4/4P3/5N2/PPPP1PPP/RNBQKB1R w KQ - 2 3"
    );
}

#[test]
fn builder_rejects_malformed_fen() {
    assert!(BoardBuilder::from_str("8/8/8/8/8/8/8/8 w - - 0").is_err());
    assert!(BoardBuilder::from_str("8/8/8/8/8/8/8/8 x - - 0 1").is_err());
    assert!(BoardBuilder::from_str("8/8/8/8/8/8/8/8/8 w - - 0 1").is_err());
    assert!(BoardBuilder::from_str("8/8/8/8/8/8/8/7z w - - 0 1").is_err());
    assert!(BoardBuilder::from_str("8/8/8/8/8/8/8/8 w - - a 1").is_err());
    assert!(BoardBuilder::from_str("8/8/8/8/8/8/8/8  w - - 0 1").is_err());
    let b = BoardBuilder::from_str("8/8/8/8/8/8/8/8 B Kq zz +7 99").unwrap();
    assert_eq!(b.get_side_to_move(), Color::Black);
    assert_eq!(b.get_castle_rights(Color::White), CastlingRights::KingSide);
    assert_eq!(b.get_castle_rights(Color::Black), CastlingRights::QueenSide);
    assert_eq!(b.get_en_passant(), None);
    assert_eq!(b.get_moves_since_capture_or_pawn_move(), 7);
    assert_eq!(b.get_move_number(), 99);
}

#[test]
fn builder_setup_and_setters() {
    let mut b = BoardBuilder::setup(
        &[(E1, Piece(King, White)), (E8, Piece(King, Black)), (E1, Piece(Queen, White))],
        Black,
        CastlingRights::Neither,
        CastlingRights::KingSide,
        None,
        3,
        7,
    );
    assert_eq!(b.get_square(E1), Some(Piece(Queen, White)));
    assert_eq!(b.get_pieces()[60], Some(Piece(King, Black)));
    b.set_square(E1, Some(Piece(King, White)));
    b.set_en_passant(Some(E3));
    b.set_castling_rights(White, CastlingRights::QueenSide);
    b.set_side_to_move(White);
    b.set_move_number(9);
    b.set_moves_since_capture_or_pawn_move(0);
    assert_eq!(b.to_string(), "4k3/8/8/8/8/8/8/4K3 w Qk e3 0 9");
    assert!(BoardBuilder::new().get_pieces().iter().all(|p| p.is_none()));
}

#[test]
fn chess_boards_create_from_string() {
    assert_eq!(
        BoardBuilder::from(ChessBoard::default()).to_string(),
        "rnbqkbnr/pppppppp/8/8/8/8/PPPPPPPP/RNBQKBNR w KQkq - 0 1"
    );
}

#[test]
fn piece_types_and_colors() {
    let board = ChessBoard::default();
    assert_eq!(board.get_piece_type_on(A2).unwrap(), Pawn);
    assert_eq!(board.get_piece_type_on(A1).unwrap(), Rook);
    assert_eq!(board.get_piece_type_on(B1).unwrap(), Knight);
    assert_eq!(board.get_piece_type_on(C1).unwrap(), Bishop);
    assert_eq!(board.get_piece_type_on(E1).unwrap(), King);
    assert_eq!(board.get_piece_type_on(D1).unwrap(), Queen);

    assert_eq!(board.get_piece_color_on(A1).unwrap(), White);
    assert_eq!(board.get_piece_color_on(A8).unwrap(), Black);
}

#[test]
fn chess_boards_square_emptiness() {
    let board = ChessBoard::default();
    let a1 = A1;
    let a3 = A3;
    assert_eq!(board.is_empty_square(a1), false);
    assert_eq!(board.is_empty_square(a3), true);
}

#[test]
fn chess_boards_display_representation() {
    let board = ChessBoard::default();
    let board_str = "   white  KQkq
        ╔════════════════════════╗
     8  ║ r  n  b  q  k  b  n  r ║
     7  ║ p  p  p  p  p  p  p  p ║
     6  ║                        ║
     5  ║                        ║
     4  ║                        ║
     3  ║                        ║
     2  ║ P  P  P  P  P  P  P  P ║
     1  ║ R  N  B  Q  K  B  N  R ║
        ╚════════════════════════╝
          a  b  c  d  e  f  g  h
    ";
    println!("{}", board.render_straight());
    assert_eq!(
        noindent(
            board
                .render_straight()
                .replace("\u{1b}[47;30m", "")
                .replace("\u{1b}[47m", "")
                .replace("\u{1b}[0m", "")
                .as_str()
        ),
        noindent(board_str)
    );

    let board_str = "   white  KQkq
        ╔════════════════════════╗
     1  ║ R  N  B  K  Q  B  N  R ║
     2  ║ P  P  P  P  P  P  P  P ║
     3  ║                        ║
     4  ║                        ║
     5  ║                        ║
     6  ║                        ║
     7  ║ p  p  p  p  p  p  p  p ║
     8  ║ r  n  b  k  q  b  n  r ║
        ╚════════════════════════╝
          h  g  f  e  d  c  b  a
    ";
    assert_eq!(
        noindent(
            board
                .render_flipped()
                .replace("\u{1b}[47;30m", "")
                .replace("\u{1b}[47m", "")
                .replace("\u{1b}[0m", "")
                .as_str()
        ),
        noindent(board_str)
    );
}

#[test]
fn chess_boards_kings_position() {
    let color = Color::White;
    assert_eq!(ChessBoard::default().get_king_square(color), E1);
}

#[test]
fn chess_boards_masks() {
    let board = ChessBoard::default();
    let result = 0xffff00000000ffffu64;
    assert_eq!(board.get_combined_mask().bits(), result);

    let result = 0x000000000000ffffu64;
    assert_eq!(board.get_color_mask(Color::White).bits(), result);

    let result = 0xffff000000000000u64;
    assert_eq!(board.get_color_mask(Color::Black).bits(), result);
}

#[test]
fn chess_boards_hash_comparison_for_different_boards() {
    let board = ChessBoard::default();
    assert_eq!(board.get_hash(), board.get_hash());

    let mut another_board = ChessBoard::default();
    another_board = another_board.make_move(&mv(Pawn, E2, E4)).unwrap();
    assert_ne!(board.get_hash(), another_board.get_hash());
}

#[test]
fn chess_boards_checks_and_pins() {
    let board = board("rnbqkbnr/pppppppp/8/8/8/5N2/PPPPPPPP/RNBQKB1R w KQkq - 0 1");
    let checkers: Vec<Square> = board.get_check_mask().squares();
    assert_eq!(checkers, vec![]);

    let board = ChessBoard::from_fen("8/8/5k2/8/3Q2N1/5K2/8/8 b - - 0 1").unwrap();
    let checkers: Vec<Square> = board.get_check_mask().squares();
    assert_eq!(checkers, vec![D4, G4]);

    let board = ChessBoard::from_fen("8/8/5k2/4p3/8/2Q2K2/8/8 b - - 0 1").unwrap();
    let pinned = board.get_pin_mask().to_square();
    assert_eq!(pinned, E5);
}

#[test]
fn chess_boards_board_builded_from_fen_validation() {
    assert!(ChessBoard::from_fen("8/8/5k2/8/5Q2/5K2/8/8 w - - 0 1").is_err());
    assert!(ChessBoard::from_fen("8/8/5k2/8/5Q2/5K2/8/8 w KQkq - 0 1").is_err());
    assert!(ChessBoard::from_fen("8/8/5k2/8/5Q2/5K2/8/8 w - f5 0 1").is_err());
    assert!(ChessBoard::from_fen("k7/K7/8/8/8/8/8/8 b - - 0 1").is_err());
    assert!(ChessBoard::from_fen("rnbqkbnr/pppp1ppp/8/4p3/4P3/8/PPPP1PPP/RNBQKBNR w KQkq e6 0 1").is_ok());
}

#[test]
fn validation_errors_by_kind() {
    assert!(matches!(ChessBoard::from_fen("8/8/8/8/8/8/8/4K3 w - - 0 1"), Err(E::InvalidBoardMultipleOneColorKings)));
    assert!(matches!(ChessBoard::from_fen("4k3/8/8/8/8/8/8/3KK3 w - - 0 1"), Err(E::InvalidBoardMultipleOneColorKings)));
    assert!(matches!(ChessBoard::from_fen("4k3/8/8/8/8/8/8/4R2K w - - 0 1"), Err(E::InvalidBoardOpponentIsOnCheck)));
    assert!(matches!(ChessBoard::from_fen("4k3/8/8/8/8/8/8/4K3 w - e6 0 1"), Err(E::InvalidBoardInconsistentEnPassant)));
    assert!(matches!(ChessBoard::from_fen("4k3/8/8/8/8/8/8/4K3 w K - 0 1"), Err(E::InvalidBoardInconsistentCastlingRights)));
    assert!(matches!(ChessBoard::from_fen("4k3/8/8/8/8/8/8/4K2R w K - 0 1"), Ok(_)));
    assert!(matches!(ChessBoard::from_fen("4k3/8/8/8 w - - 0 1"), Err(E::InvalidBoardMultipleOneColorKings)));
    assert!(matches!(ChessBoard::from_fen("4k3/8/8/8/8/8/8/4K3 w - - 0"), Err(E::InvalidFENString { .. })));
}

#[test]
fn chess_boards_legal_moves_number_equality() {
    assert_eq!(ChessBoard::default().get_legal_moves().len(), 20);

    assert_eq!(board("Q2k4/8/3K4/8/8/8/8/8 b - - 0 1").get_legal_moves().len(), 0);

    assert_eq!(
        board("rnbqkbnr/pppp1ppp/8/4p3/4P3/8/PPPP1PPP/RNBQKBNR w KQkq e6 0 1").get_legal_moves().len(),
        29
    );

    assert_eq!(board("3k4/3P4/3K4/8/8/8/8/8 b - - 0 1").get_legal_moves().len(), 0);

    assert_eq!(
        board("r3k2r/p1ppqpb1/bn2pnp1/3PN3/1p2P3/2N2Q1p/PPPBBPPP/R3K2R w KQkq - 0 1")
            .get_legal_moves()
            .len(),
        48
    );

    board("r1bqkbnr/p2p1ppP/1N2B3/1Pp1Q3/8/P1n2N2/2PPPPP1/R1B1K2R w KQkq c6 0 1")
        .get_legal_moves()
        .into_iter()
        .for_each(|x| println!("{}", x.notation()));

    assert_eq!(
        board("r1bqkbnr/p2p1ppP/1N2B3/1Pp1Q3/8/P1n2N2/2PPPPP1/R1B1K2R w KQkq c6 0 1")
            .get_legal_moves()
            .len(),
        13 + 11 + 10 + 9 + 2 + 17
    );

    let fen = "r3k2r/p1ppqpb1/bn2pnp1/3PN3/1p2P3/2N2Q1p/PPPBBPPP/R3K2R w KQkq - 0 1";
    let board = board(fen);
    board.get_legal_moves().iter().for_each(|one| assert_eq!(board.is_legal_move(one), true));
}

#[test]
fn chess_boards_promotion() {
    let mut board = board("1r5k/P7/7K/8/8/8/8/8 w - - 0 1");
    for one in board.get_legal_moves() {
        println!("{}", one.notation());
    }
    assert_eq!(board.get_legal_moves().len(), 11);

    board = board.make_move(&BoardMove::from_str("a7b8=Q").unwrap()).unwrap();
    assert_eq!(board.as_fen(), "1Q5k/8/7K/8/8/8/8/8 b - - 0 1");
}

#[test]
fn chess_boards_en_passant() {
    let position = board("rnbqkbnr/ppppppp1/8/4P2p/8/8/PPPP1PPP/PNBQKBNR b - - 0 1");

    let next_position = position.make_move(&mv(Pawn, D7, D5)).unwrap();
    assert!(next_position.get_legal_moves().contains(&mv(Pawn, E5, D6)));

    let position = board("4rk2/1p4pp/1pp2q2/r2pb3/3NpP1P/P3P1PR/1PPRQ3/2K5 b - f3 0 27");
    assert!(position.get_legal_moves().contains(&mv(Pawn, E4, F3)));
    let next_position = position.make_move(&mv(Pawn, E4, F3)).unwrap();
    assert_eq!(next_position.as_fen(), "4rk2/1p4pp/1pp2q2/r2pb3/3N3P/P3PpPR/1PPRQ3/2K5 w - - 0 28");
}

#[test]
fn chess_boards_castling() {
    let board1 = board("r3k2r/pppppppp/8/8/8/8/PPPPPPPP/R3K2R w KQkq - 0 1");
    assert!(board1.get_legal_moves().contains(&BoardMove::CastleKingSide));
    assert!(board1.get_legal_moves().contains(&BoardMove::CastleQueenSide));

    let board2 = board("r3k2r/pppppppp/8/8/8/8/PPPPPPPP/R3K2R w kq - 0 1");
    assert!(!board2.get_legal_moves().contains(&BoardMove::CastleKingSide));
    assert!(!board2.get_legal_moves().contains(&BoardMove::CastleQueenSide));

    let board3 = board("r3k1nr/pp1ppppp/8/8/8/2Q5/PPPPPPPP/R3K2R b KQkq - 0 1");
    assert!(!board3.get_legal_moves().contains(&BoardMove::CastleKingSide));
    assert!(!board3.get_legal_moves().contains(&BoardMove::CastleQueenSide));

    let board4 = board("r3k2r/1b4bq/8/8/8/8/7B/R3K2R w KQkq - 0 1").make_move(&mv(Rook, A1, A8)).unwrap();
    assert!(board4.get_castle_rights(White).has_kingside());
    assert!(!board4.get_castle_rights(White).has_queenside());
    assert!(board4.get_castle_rights(Black).has_kingside());
    assert!(!board4.get_castle_rights(Black).has_queenside());
}

#[test]
fn castling_moves_the_rook() {
    let b = board("r3k2r/pppppppp/8/8/8/8/PPPPPPPP/R3K2R w KQkq - 0 1");
    let after = b.make_move(&BoardMove::CastleKingSide).unwrap();
    assert_eq!(after.as_fen(), "r3k2r/pppppppp/8/8/8/8/PPPPPPPP/R4RK1 b kq - 1 1");
    let after = after.make_move(&BoardMove::CastleQueenSide).unwrap();
    assert_eq!(after.as_fen(), "2kr3r/pppppppp/8/8/8/8/PPPPPPPP/R4RK1 w - - 2 2");
    assert_eq!(b.castling_is_available_on_board(None), CastlingRights::BothSides);
}

#[test]
fn chess_boards_kill_the_king() {
    assert!(ChessBoard::from_fen("Q3k3/8/4K3/8/8/8/8/8 w - - 0 1").is_err());
}

#[test]
fn illegal_moves_are_refused() {
    let b = ChessBoard::default();
    assert!(b.make_move(&mv(Pawn, E2, E5)).is_err());
    assert!(b.make_move(&mv(Knight, B1, B3)).is_err());
    assert!(b.make_move(&BoardMove::CastleKingSide).is_err());
    assert!(!b.is_legal_move(&mv(Bishop, C1, E3)));
    let mut m = b;
    assert!(m.make_move_mut(&mv(Queen, D1, D3)).is_err());
    assert_eq!(m.as_fen(), b.as_fen());
    m.make_move_mut(&mv(Knight, G1, F3)).unwrap();
    assert_eq!(m.as_fen(), "rnbqkbnr/pppppppp/8/8/8/5N2/PPPPPPPP/RNBQKB1R b KQkq - 1 1");
    let n = m.make_move_unchecked(&mv(Pawn, E7, E5));
    assert_eq!(n.get_en_passant(), Some(E6));
    assert_eq!(n.get_move_number(), 2);
    assert_eq!(n.get_moves_since_capture_or_pawn_move(), 0);
}

#[test]
fn status_and_draws() {
    assert_eq!(board("Q4k2/8/5K2/8/8/8/8/8 b - - 0 1").get_status(), BoardStatus::CheckMated(Black));
    assert_eq!(board("3k4/3P4/3K4/8/8/8/8/8 b - - 0 1").get_status(), BoardStatus::Stalemate);
    assert_eq!(board("4k3/8/6b1/8/8/3NK3/8/8 w - - 0 1").get_status(), BoardStatus::TheoreticalDrawDeclared);
    assert_eq!(board("4k3/8/6b1/8/8/3RK3/8/8 w - - 100 80").get_status(), BoardStatus::FiftyMovesDrawDeclared);
    assert_eq!(ChessBoard::default().get_status(), BoardStatus::Ongoing);
    assert!(board("4k3/8/8/8/8/8/8/4K3 w - - 0 1").is_theoretical_draw_on_board());
    assert!(!board("4k3/8/8/8/8/8/8/3RK3 w - - 0 1").is_theoretical_draw_on_board());
}

#[test]
fn move_ambiguity() {
    let b = board("4k3/8/8/8/8/8/8/R3K2R w - - 0 1");
    let m = PieceMove::new(Rook, A1, D1, None).unwrap();
    assert_eq!(b.get_move_ambiguity_type(&m).unwrap(), DisplayAmbiguityType::Neither);
    let b = board("4k3/8/8/8/8/8/4K3/R6R w - - 0 1");
    let m = PieceMove::new(Rook, A1, D1, None).unwrap();
    assert_eq!(b.get_move_ambiguity_type(&m).unwrap(), DisplayAmbiguityType::ExtraFile);
    let b = board("4k3/8/8/8/R7/8/8/R3K3 w - - 0 1");
    let m = PieceMove::new(Rook, A1, A2, None).unwrap();
    assert_eq!(b.get_move_ambiguity_type(&m).unwrap(), DisplayAmbiguityType::ExtraSquare);
    let m = PieceMove::new(Rook, A1, B1, None).unwrap();
    assert_eq!(b.get_move_ambiguity_type(&m).unwrap(), DisplayAmbiguityType::Neither);
    let m = PieceMove::new(Rook, A1, H8, None).unwrap();
    assert!(b.get_move_ambiguity_type(&m).is_err());
    let props = MovePropertiesOnBoard::new(mv(Rook, A4, E4), b).unwrap();
    assert!(props.is_check);
    assert!(!props.is_checkmate);
}

#[test]
fn setup_builds_the_position() {
    let board = ChessBoard::setup(
        &[(E1, Piece(King, White)), (E8, Piece(King, Black)), (E2, Piece(Pawn, White))],
        White,
        CastlingRights::Neither,
        CastlingRights::Neither,
        None,
        0,
        1,
    )
    .unwrap();
    assert_eq!(board.as_fen(), "4k3/8/8/8/8/8/4P3/4K3 w - - 0 1");
    assert_eq!(board.get_piece_on(E2), Some(Piece(Pawn, White)));
}

#[test]
fn calculate_hash() {
    let zobrist = ZobristHasher::new();
    let board = ChessBoard::default();

    let chess_move = mv(Pawn, E2, E4);
    let new_board = board.make_move(&chess_move).unwrap();

    assert_ne!(zobrist.calculate_position_hash(&board), zobrist.calculate_position_hash(&new_board));

    let direct_calculated_hash = zobrist.calculate_position_hash(&new_board);
    let live_updating_hash = new_board.get_hash();
    assert_eq!(direct_calculated_hash, live_updating_hash);
}

#[test]
fn transpositions_share_a_hash() {
    let a = ChessBoard::default()
        .make_move(&mv(Knight, G1, F3)).unwrap()
        .make_move(&mv(Knight, G8, F6)).unwrap()
        .make_move(&mv(Knight, B1, C3)).unwrap();
    let b = ChessBoard::default()
        .make_move(&mv(Knight, B1, C3)).unwrap()
        .make_move(&mv(Knight, G8, F6)).unwrap()
        .make_move(&mv(Knight, G1, F3)).unwrap();
    assert_eq!(a.get_hash(), b.get_hash());
}

#[test]
fn board_moves_move_representation() {
    let board_move = mv(Pawn, E2, E4);
    assert_eq!(board_move.notation(), "e2e4");

    let board_move = mv_promote(Pawn, E7, E8, Queen);
    assert_eq!(board_move.notation(), "e7e8=Q");

    let board_move = mv(Queen, A1, A8);
    assert_eq!(board_move.notation(), "Qa1a8");

    let board_move = BoardMove::CastleQueenSide;
    assert_eq!(board_move.notation(), "O-O-O");
}

#[test]
fn board_moves_capture() {
    let board = ChessBoard::from_fen("k7/1q6/8/8/8/8/6Q1/5K2 w - - 0 1").unwrap();
    let board_move = mv(Queen, G2, B7);
    let metadata = MovePropertiesOnBoard::new(board_move, board).unwrap();
    assert_eq!(metadata.is_capture, true);

    let board_move = mv(Queen, G2, C6);
    let metadata = MovePropertiesOnBoard::new(board_move, board).unwrap();
    assert_eq!(metadata.is_capture, false);
}

#[test]
fn chess_moves_capture() {
    let board = ChessBoard::from_fen("k7/1q6/8/8/8/8/6Q1/5K2 w - - 0 1").unwrap();
    let chess_move = PieceMove::new(Queen, G2, B7, None).unwrap();
    assert_eq!(chess_move.is_capture_on_board(board), true);

    let chess_move = PieceMove::new(Queen, G2, C6, None).unwrap();
    assert_eq!(chess_move.is_capture_on_board(board), false);
}

#[test]
fn board_moves_str_representation() {
    assert_eq!(BoardMove::from_str("e2e4").unwrap(), mv(Pawn, E2, E4));

    assert_eq!(
        BoardMove::from_str("e7e8=Q").unwrap(),
        BoardMove::MovePiece(PieceMove::new(Pawn, E7, E8, Some(PieceType::Queen)).unwrap())
    );

    assert_eq!(
        BoardMove::from_str("Pe7e8=Q").unwrap(),
        BoardMove::MovePiece(PieceMove::new(Pawn, E7, E8, Some(PieceType::Queen)).unwrap())
    );

    assert_eq!(
        BoardMove::from_str("Ra1a8").unwrap(),
        BoardMove::MovePiece(PieceMove::new(Rook, A1, A8, None).unwrap())
    );

    assert_eq!(BoardMove::from_str("O-O-O").unwrap(), BoardMove::CastleQueenSide);

    assert_eq!(BoardMove::from_str("O-O").unwrap(), BoardMove::CastleKingSide);

    assert_eq!(
        BoardMove::from_str("bc1h6").unwrap(),
        BoardMove::MovePiece(PieceMove::new(Bishop, C1, H6, None).unwrap())
    );

    assert!(BoardMove::from_str("gc1h6").is_err());
    assert!(BoardMove::from_str("Bz1h6").is_err());
    assert!(BoardMove::from_str("Bc1h61").is_err());
}

#[test]
fn short_notation() {
    let b = board("r3k2r/8/8/8/8/8/8/R3K2R w KQkq - 0 1");
    let props = MovePropertiesOnBoard::new(BoardMove::CastleKingSide, b).unwrap();
    assert_eq!(BoardMove::CastleKingSide.to_string(props), "O-O");
    let m = mv(Rook, A1, A8);
    let props = MovePropertiesOnBoard::new(m, b).unwrap();
    assert_eq!(m.to_string(props), "Rxa8+");
    let b = board("7k/P7/8/8/8/8/8/K7 w - - 0 1");
    let m = mv_promote(Pawn, A7, A8, Queen);
    let props = MovePropertiesOnBoard::new(m, b).unwrap();
    assert_eq!(m.to_string(props), "a8=Q+");
    assert!(matches!(
        MovePropertiesOnBoard::new(mv(Pawn, A7, A8), b),
        Err(E::IllegalMoveDetected)
    ));
    assert!(matches!(BoardMove::from_str("e7e8=P"), Err(E::InvalidPromotionPiece)));
}

fn perft_get_branches(position: &ChessBoard) -> Vec<(BoardMove, ChessBoard)> {
    position
        .get_legal_moves()
        .into_iter()
        .map(|m| (m, position.make_move(&m).unwrap()))
        .collect::<Vec<_>>()
}

fn perft_calculate_positions(position: ChessBoard, recursion_level: usize) -> Vec<usize> {
    let mut boards = vec![position];
    let mut positions_counter = vec![0; recursion_level];

    for i in 0..recursion_level {
        let mut x = vec![];
        boards.iter().for_each(|b| {
            let t = perft_get_branches(b);
            x.append(&mut t.clone().into_iter().map(|x| x.1).collect());
        });

        boards = x;
        positions_counter[i] = boards.len();
    }
    positions_counter
}

#[test]
fn perft_1() {
    const MOVES_NUMBER: usize = 4; // Can be tuned in range 1..=5 (affects testing time)
    let position = ChessBoard::default();

    perft_calculate_positions(position, MOVES_NUMBER)
        .into_iter()
        .zip([20, 400, 8902, 197281, 4865609].into_iter())
        .for_each(|(a, b)| assert_eq!(a, b));
}

#[test]
fn perft_2() {
    const MOVES_NUMBER: usize = 3; // Can be tuned in range 1..=5 (affects testing time)
    let position = board("r3k2r/p1ppqpb1/bn2pnp1/3PN3/1p2P3/2N2Q1p/PPPBBPPP/R3K2R w KQkq - 0 1");

    perft_calculate_positions(position, MOVES_NUMBER)
        .into_iter()
        .zip([48, 2039, 97862, 4085603, 193690690].into_iter())
        .for_each(|(a, b)| assert_eq!(a, b));
}

#[test]
fn perft_3() {
    const MOVES_NUMBER: usize = 5; // Can be tuned in range 1..=5 (affects testing time)
    let position = board("8/2p5/3p4/KP5r/1R3p1k/8/4P1P1/8 w - - 0 1");

    perft_calculate_positions(position, MOVES_NUMBER)
        .into_iter()
        .zip([14, 191, 2812, 43238, 674624].into_iter())
        .for_each(|(a, b)| assert_eq!(a, b));
}

#[test]
fn perft_4() {
    const MOVES_NUMBER: usize = 4; // Can be tuned in range 1..=5 (affects testing time)
    let position = board("r3k2r/Pppp1ppp/1b3nbN/nP6/BBP1P3/q4N2/Pp1P2PP/R2Q1RK1 w kq - 0 1");

    perft_calculate_positions(position, MOVES_NUMBER)
        .into_iter()
        .zip([6, 264, 9467, 422333, 15833292].into_iter())
        .for_each(|(a, b)| assert_eq!(a, b));
}

#[test]
fn perft_5() {
    const MOVES_NUMBER: usize = 3; // Can be tuned in range 1..=5 (affects testing time)
    let position = board("rnbq1k1r/pp1Pbppp/2p5/8/2B5/8/PPP1NnPP/RNBQK2R w KQ - 1 8");

    perft_calculate_positions(position, MOVES_NUMBER)
        .into_iter()
        .zip([44, 1486, 62379, 2103487, 89941194].into_iter())
        .for_each(|(a, b)| assert_eq!(a, b));
}

#[test]
fn perft_6() {
    const MOVES_NUMBER: usize = 3; // Can be tuned in range 1..=5 (affects testing time)
    let position = board("r4rk1/1pp1qppp/p1np1n2/2b1p1B1/2B1P1b1/P1NP1N2/1PP1QPPP/R4RK1 w - - 0 10");

    perft_calculate_positions(position, MOVES_NUMBER)
        .into_iter()
        .zip([46, 2079, 89890, 3894594, 164075551].into_iter())
        .for_each(|(a, b)| assert_eq!(a, b));
}

#[test]
fn render_with_colors() {
    colored::control::set_override(true);
    let text = ChessBoard::default().render_straight();
    colored::control::unset_override();
    assert!(text.contains("\u{1b}[47m   \u{1b}[0m"));
    assert!(text.contains("\u{1b}[47;30m R \u{1b}[0m") || text.contains("\u{1b}[47;30m N \u{1b}[0m"));
}

#[test]
fn legal_moves_come_in_order() {
    let board = ChessBoard::default();
    let names: Vec<String> = board.get_legal_moves().iter().map(|m| m.notation()).collect();
    assert_eq!(
        names,
        vec![
            "a2a3", "a2a4", "b2b3", "b2b4", "c2c3", "c2c4", "d2d3", "d2d4", "e2e3", "e2e4", "f2f3",
            "f2f4", "g2g3", "g2g4", "h2h3", "h2h4", "Nb1a3", "Nb1c3", "Ng1f3", "Ng1h3"
        ]
    );
    let board = ChessBoard::from_fen("r3k2r/1P6/8/8/8/8/8/R3K2R w KQkq - 0 1").unwrap();
    let names: Vec<String> = board.get_legal_moves().iter().map(|m| m.notation()).collect();
    assert_eq!(&names[..8], &["b7a8=N", "b7a8=B", "b7a8=R", "b7a8=Q", "b7b8=N", "b7b8=B", "b7b8=R", "b7b8=Q"]);
    assert_eq!(&names[names.len() - 2..], &["O-O", "O-O-O"]);
}

#[test]
fn move_texts_with_wide_characters() {
    // the part before '=' is measured in bytes, as UTF-8 stores it
    assert!(BoardMove::is_readable("e2e4é"));
    assert!(matches!(BoardMove::from_str("e2e4é"), Err(E::InvalidBoardMoveRepresentation)));
    assert!(PieceMove::is_readable("x4é"));
    assert!(matches!(PieceMove::from_str("x4é"), Err(E::InvalidBoardMoveRepresentation)));
    assert!(!PieceMove::is_readable("e4é"));
    assert!(!PieceMove::is_readable("é"));
    assert!(!PieceMove::is_readable("Ne2"));
    assert!(!PieceMove::is_readable(""));
    assert!(!PieceMove::is_readable("e2e4=Qx"));
    assert!(PieceMove::is_readable("e7e8=Q"));
    assert!(PieceMove::is_readable("Ze2e4"));
    assert!(matches!(PieceMove::from_str("Ze2e4"), Err(E::InvalidBoardMoveRepresentation)));
    assert!(BoardMove::is_readable("O-O"));
    assert!(BoardMove::is_readable("O-O-O"));
}

#[test]
fn hash_updated_by_a_move() {
    let keys = ZobristHasher::new();
    let fens = [
        "rnbqkbnr/pppppppp/8/8/8/8/PPPPPPPP/RNBQKBNR w KQkq - 0 1",
        "r3k2r/p1ppqpb1/bn2pnp1/3PN3/1p2P3/2N2Q1p/PPPBBPPP/R3K2R w KQkq - 0 1",
        "rnbqkbnr/ppp1p1pp/8/3pPp2/8/8/PPPP1PPP/RNBQKBNR w KQkq f6 0 3",
        "8/P5k1/8/8/8/8/6K1/8 w - - 0 1",
    ];
    for fen in fens {
        let board = ChessBoard::from_fen(fen).unwrap();
        for m in board.get_legal_moves() {
            let next = board.make_move(&m).unwrap();
            assert_eq!(board.hash_after_move(&keys, board.get_hash(), &m, &next), next.get_hash());
        }
    }
}
