use libchess::{CastlingRights, Color, PieceType};

#[test]
fn pieces_create_from_string() {
    assert_eq!(PieceType::from_str("").unwrap(), PieceType::Pawn);
    assert_eq!(PieceType::from_str("N").unwrap(), PieceType::Knight);
    assert_eq!(PieceType::from_str("Q").unwrap(), PieceType::Queen);
}

#[test]
fn piece_kinds_and_colors() {
    assert!(PieceType::from_str("NN").is_err());
    assert!(PieceType::from_str("x").is_err());
    assert_eq!(PieceType::from_str("k").unwrap(), PieceType::King);
    assert_eq!(PieceType::from_index(3).unwrap(), PieceType::Rook);
    assert!(PieceType::from_index(6).is_err());
    assert_eq!(PieceType::Bishop.to_index(), 2);
    assert_eq!(PieceType::Queen.to_string(), "Q");
    assert_eq!(Color::White.opposite(), Color::Black);
    assert_eq!(!Color::Black, Color::White);
    assert_eq!(Color::from_index(1).unwrap(), Color::Black);
    assert!(Color::from_index(2).is_err());
}

#[test]
fn availability() {
    assert_eq!(CastlingRights::BothSides.has_kingside(), true);
    assert_eq!(CastlingRights::BothSides.has_queenside(), true);
    assert_eq!(CastlingRights::Neither.has_kingside(), false);
    assert_eq!(CastlingRights::Neither.has_queenside(), false);
    assert_eq!(CastlingRights::KingSide.has_kingside(), true);
    assert_eq!(CastlingRights::KingSide.has_queenside(), false);
    assert_eq!(CastlingRights::QueenSide.has_kingside(), false);
    assert_eq!(CastlingRights::QueenSide.has_queenside(), true);
}

#[test]
fn adding() {
    assert_eq!(CastlingRights::Neither + CastlingRights::Neither, CastlingRights::Neither);
    assert_eq!(CastlingRights::Neither + CastlingRights::KingSide, CastlingRights::KingSide);
    assert_eq!(CastlingRights::Neither + CastlingRights::QueenSide, CastlingRights::QueenSide);
    assert_eq!(CastlingRights::Neither + CastlingRights::BothSides, CastlingRights::BothSides);
    assert_eq!(CastlingRights::KingSide + CastlingRights::KingSide, CastlingRights::KingSide);
    assert_eq!(CastlingRights::KingSide + CastlingRights::QueenSide, CastlingRights::BothSides);
    assert_eq!(CastlingRights::KingSide + CastlingRights::BothSides, CastlingRights::BothSides);
    assert_eq!(CastlingRights::BothSides + CastlingRights::QueenSide, CastlingRights::BothSides);
    assert_eq!(CastlingRights::BothSides + CastlingRights::BothSides, CastlingRights::BothSides);
}

#[test]
fn subtracting() {
    assert_eq!(CastlingRights::Neither - CastlingRights::BothSides, CastlingRights::Neither);
    assert_eq!(CastlingRights::Neither - CastlingRights::KingSide, CastlingRights::Neither);
    assert_eq!(CastlingRights::KingSide - CastlingRights::KingSide, CastlingRights::Neither);
    assert_eq!(CastlingRights::KingSide - CastlingRights::QueenSide, CastlingRights::KingSide);
    assert_eq!(CastlingRights::KingSide - CastlingRights::Neither, CastlingRights::KingSide);
    assert_eq!(CastlingRights::BothSides - CastlingRights::QueenSide, CastlingRights::KingSide);
    assert_eq!(CastlingRights::BothSides - CastlingRights::KingSide, CastlingRights::QueenSide);
    assert_eq!(CastlingRights::BothSides - CastlingRights::BothSides, CastlingRights::Neither);
    assert_eq!(CastlingRights::BothSides - CastlingRights::Neither, CastlingRights::BothSides);
}

#[test]
fn castling_indices_and_letters() {
    assert_eq!(CastlingRights::QueenSide.to_index(), 1);
    assert_eq!(CastlingRights::from_index(1), CastlingRights::KingSide);
    assert_eq!(CastlingRights::from_index(2), CastlingRights::QueenSide);
    assert_eq!(CastlingRights::BothSides.to_string(), "kq");
    assert_eq!(CastlingRights::Neither.to_string(), "");
    let mut r = CastlingRights::KingSide;
    r += CastlingRights::QueenSide;
    assert_eq!(r, CastlingRights::BothSides);
    r -= CastlingRights::KingSide;
    assert_eq!(r, CastlingRights::QueenSide);
}
