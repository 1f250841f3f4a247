use vstd::prelude::*;

verus! {

/// Every failure that the library reports.
#[derive(Debug, Clone)]
pub enum LibChessError {
    InvalidBoardFileIndex { n: usize },
    NegativeBoardFileIndex,
    InvalidBoardFileName,
    InvalidBoardRankIndex { n: usize },
    NegativeBoardRankIndex,
    InvalidBoardRankName,
    InvalidSquareRepresentation,
    InvalidCastlingIndexRepresentation,
    InvalidPeaceRepresentation,
    InvalidPeaceIndex { n: usize },
    InvalidColorIndex { n: usize },
    InvalidBoardMoveRepresentation,
    InvalidPromotionPiece,
    InvalidMoveForCurrentBoard,
    InvalidFENString { s: String },
    InvalidPositionColorsOverlap,
    InvalidPositionPieceTypeOverlap,
    InvalidBoardSelfNonConsistency,
    InvalidBoardMultipleOneColorKings,
    InvalidBoardOpponentIsOnCheck,
    InvalidBoardInconsistentEnPassant,
    InvalidBoardInconsistentCastlingRights,
    IllegalMoveDetected,
    NotAssociatedBoardMove,
    IllegalActionDetected,
    DrawOfferNeedsAnswer,
    DrawOfferNotDetected,
    GameIsAlreadyFinished,
    WrongMoveNumber,
    InvalidPGNString,
}

} // verus!
