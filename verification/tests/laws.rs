use libchess::squares::{A1, A7, A8, C3, E1, E2, E4, F1, F3, F6, G1, G8};
use libchess::PieceType::{King, Knight, Pawn, Queen, Rook};
use libchess::Color;
use libchess::{Action, BoardBuilder, BoardMove, ChessBoard, Game, GameMetadata, MovePropertiesOnBoard, PieceMove, Square};

const FENS: [&str; 6] = [
    "rnbqkbnr/pppppppp/8/8/8/8/PPPPPPPP/RNBQKBNR w KQkq - 0 1",
    "rnbqkbnr/pppp1ppp/8/4p3/4P3/8/PPPP1PPP/RNBQKBNR w KQkq e6 0 2",
    "8/P5k1/2b3p1/5p2/5K2/7R/8/8 w - - 13 61",
    "r3k2r/8/8/8/8/8/8/R3K2R b Kq - 7 40",
    "7k/8/8/8/8/8/8/K7 w - - 99 200",
    "2kr3r/ppp2ppp/8/8/8/8/PPP2PPP/2KR3R w - - 0 18",
];

#[test]
fn fen_of_a_board_reads_back() {
    for fen in FENS {
        let board = ChessBoard::from_fen(fen).unwrap();
        let again = ChessBoard::from_fen(&board.as_fen()).unwrap();
        assert_eq!(again, board);
        assert_eq!(again.as_fen(), fen);
    }
}

#[test]
fn fen_of_a_builder_reads_back() {
    for fen in FENS {
        let builder = BoardBuilder::from_str(fen).unwrap();
        let again = BoardBuilder::from_str(&builder.to_string()).unwrap();
        assert_eq!(again.to_string(), builder.to_string());
        assert_eq!(again.to_string(), fen);
    }
}

#[test]
fn square_names_read_back() {
    for i in 0..64u8 {
        let sq = Square::new(i).unwrap();
        assert_eq!(Square::from_str(&sq.to_string()).unwrap(), sq);
    }
}

#[test]
fn move_notation_reads_back() {
    let moves = [
        BoardMove::MovePiece(PieceMove::new(Pawn, E2, E4, None).unwrap()),
        BoardMove::MovePiece(PieceMove::new(Knight, G1, F3, None).unwrap()),
        BoardMove::MovePiece(PieceMove::new(Rook, A1, A8, None).unwrap()),
        BoardMove::MovePiece(PieceMove::new(Pawn, A7, A8, Some(Queen)).unwrap()),
        BoardMove::MovePiece(PieceMove::new(Pawn, A7, A8, Some(Knight)).unwrap()),
        BoardMove::CastleKingSide,
        BoardMove::CastleQueenSide,
    ];
    for one in moves {
        assert_eq!(BoardMove::from_str(&one.notation()).unwrap(), one);
    }
}

#[test]
fn tag_reads_what_was_written() {
    let mut tags = GameMetadata::default();
    tags.set_value("Event".to_string(), "Final".to_string());
    tags.set_value("Round".to_string(), "3".to_string());
    tags.set_value("Event".to_string(), "Semifinal".to_string());
    assert_eq!(tags.get_value("Event".to_string()).unwrap(), "Semifinal");
    assert_eq!(tags.get_value("Round".to_string()).unwrap(), "3");
    assert_eq!(tags.get_value("Site".to_string()).unwrap(), "?");
    assert!(tags.get_value("Annotator".to_string()).is_none());
}

#[test]
fn history_chains_and_repetitions_count() {
    let mut game = Game::default();
    let start = game.get_position();
    let knights = [
        BoardMove::MovePiece(PieceMove::new(Knight, G1, F3, None).unwrap()),
        BoardMove::MovePiece(PieceMove::new(Knight, G8, F6, None).unwrap()),
        BoardMove::MovePiece(PieceMove::new(Knight, F3, G1, None).unwrap()),
        BoardMove::MovePiece(PieceMove::new(Knight, F6, G8, None).unwrap()),
    ];
    for one in knights {
        game.make_move(Action::MakeMove(one)).unwrap();
    }
    let positions = game.get_action_history().get_positions();
    let moves = game.get_action_history().get_moves();
    assert_eq!(positions.len(), moves.len() + 1);
    for (i, one) in moves.iter().enumerate() {
        assert_eq!(positions[i].make_move(one).unwrap(), positions[i + 1]);
    }
    assert_eq!(*positions.last().unwrap(), game.get_position());
    assert_eq!(game.get_position_counter(start), 2);
    let after_first = positions[1];
    assert_eq!(game.get_position_counter(after_first), 1);
    // a refused action changes nothing
    let before = game.get_position();
    assert!(game.make_move(Action::AcceptDraw).is_err());
    assert_eq!(game.get_position(), before);
    assert_eq!(game.get_action_history().get_moves().len(), 4);
}

#[test]
fn a_legal_move_leaves_no_own_check() {
    // the knight on c3 is pinned against the king by the bishop on a5
    let board = ChessBoard::from_fen("4k3/8/8/b7/8/2N5/8/4K3 w - - 0 1").unwrap();
    let pinned = BoardMove::MovePiece(PieceMove::new(Knight, C3, E4, None).unwrap());
    assert!(!board.is_legal_move(&pinned));
    assert!(board.make_move(&pinned).is_err());
    for one in board.get_legal_moves() {
        let after = board.make_move(&one).unwrap();
        assert_eq!(after.get_side_to_move(), libchess::Color::Black);
        assert!(!board.get_legal_moves().is_empty());
    }
    let step = BoardMove::MovePiece(PieceMove::new(King, E1, F1, None).unwrap());
    assert!(board.is_legal_move(&step));
}

#[test]
fn short_notations_of_legal_moves_differ() {
    let fens = [
        "rnbqkbnr/pppppppp/8/8/8/8/PPPPPPPP/RNBQKBNR w KQkq - 0 1",
        // two knights and two rooks that reach the same squares
        "4k3/8/8/1N3N2/8/R6R/8/4K3 w - - 0 1",
        // three queens, two on one file
        "4k3/8/Q7/8/8/Q6Q/8/4K3 w - - 0 1",
        // captures by pawns from both sides, and promotions
        "1n2k3/P7/8/2p1p3/3P4/8/8/4K3 w - - 0 1",
        // both castlings
        "r3k2r/8/8/8/8/8/8/R3K2R w KQkq - 0 1",
    ];
    for fen in fens {
        let board = ChessBoard::from_fen(fen).unwrap();
        let mut texts: Vec<String> = Vec::new();
        for one in board.get_legal_moves() {
            let props = MovePropertiesOnBoard::new(one, board).unwrap();
            texts.push(one.to_string(props));
        }
        let count = texts.len();
        texts.sort();
        texts.dedup();
        assert_eq!(texts.len(), count, "{}", fen);
    }
}

#[test]
fn canonical_fen_comes_back_unchanged() {
    for fen in FENS {
        assert_eq!(ChessBoard::from_fen(fen).unwrap().as_fen(), fen);
    }
    // a text that is not canonical (a run split in two digits, side in upper case) is read,
    // but written back in canonical form
    let loose = "rnbqkbnr/pppppppp/44/8/8/8/PPPPPPPP/RNBQKBNR W KQkq - 0 1";
    assert_eq!(ChessBoard::from_fen(loose).unwrap().as_fen(), FENS[0]);
}

#[test]
fn moves_hand_the_board_back() {
    let mut board = ChessBoard::default();
    let after = board
        .make_move_mut(&BoardMove::from_str("e2e4").unwrap())
        .unwrap()
        .make_move_mut(&BoardMove::from_str("e7e5").unwrap())
        .unwrap()
        .as_fen();
    assert_eq!(after, "rnbqkbnr/pppp1ppp/8/4p3/4P3/8/PPPP1PPP/RNBQKBNR w KQkq e6 0 2");
    assert_eq!(board.as_fen(), after);

    let e2e4 = BoardMove::from_str("e2e4").unwrap();
    let mut x = ChessBoard::default();
    let y = ChessBoard::default();
    x.make_move_mut_unchecked(&e2e4);
    assert_eq!(x, y.make_move(&e2e4).unwrap());
    assert_eq!(y.make_move_unchecked(&e2e4), y.make_move(&e2e4).unwrap());

    let mut game = Game::default();
    let n = game
        .make_move(Action::MakeMove(BoardMove::from_str("Ng1f3").unwrap()))
        .unwrap()
        .make_move(Action::MakeMove(BoardMove::from_str("Ng8f6").unwrap()))
        .unwrap()
        .get_action_history()
        .get_moves()
        .len();
    assert_eq!(n, 2);
}

#[test]
fn piece_counts_are_mask_counts() {
    let board = ChessBoard::from_fen("4k3/8/6b1/8/8/3NK3/8/8 w - - 0 1").unwrap();
    assert_eq!(board.get_color_mask(Color::White).count_ones(), 2);
    assert_eq!(board.get_color_mask(Color::Black).count_ones(), 2);
    assert!(board.is_theoretical_draw_on_board());
    let board = ChessBoard::from_fen("4k3/8/6b1/8/8/3PK3/8/8 w - - 0 1").unwrap();
    assert!(!board.is_theoretical_draw_on_board());
}
