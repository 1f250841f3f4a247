use libchess::{BitBoard, File, Rank, Square};
use unindent::unindent;

#[test]
fn bitboards_create() {
    let bit_board = BitBoard::new(2);
    let result_str = "
        . . . . . . . . 
        . . . . . . . . 
        . . . . . . . . 
        . . . . . . . . 
        . . . . . . . . 
        . . . . . . . . 
        . . . . . . . . 
        . X . . . . . . 
        ";
    assert_eq!(bit_board.to_string(), unindent(result_str));
}

#[test]
fn create_from_rank_file() {
    let bit_board = BitBoard::from_rank_file(Rank::Second, File::E);
    println!("{}", bit_board.to_string());
    println!("{}", bit_board.to_square().to_string());
    assert_eq!(bit_board, bit_board);
    assert_eq!(bit_board.to_square(), Square::E2);
}

#[test]
fn bit_ops() {
    let bit_board = BitBoard::from_rank_file(Rank::Second, File::E)
        | BitBoard::from_rank_file(Rank::Fourth, File::E);
    let result_or = "
        . . . . . . . . 
        . . . . . . . . 
        . . . . . . . . 
        . . . . . . . . 
        . . . . X . . . 
        . . . . . . . . 
        . . . . X . . . 
        . . . . . . . . 
        ";
    assert_eq!(bit_board.to_string(), unindent(result_or));

    let bit_board = bit_board & BitBoard::from_rank_file(Rank::Fourth, File::E);
    let result_or = "
        . . . . . . . . 
        . . . . . . . . 
        . . . . . . . . 
        . . . . . . . . 
        . . . . X . . . 
        . . . . . . . . 
        . . . . . . . . 
        . . . . . . . . 
        ";
    assert_eq!(bit_board.to_string(), unindent(result_or));

    let bit_board = !bit_board;
    let result_or = "
        X X X X X X X X 
        X X X X X X X X 
        X X X X X X X X 
        X X X X X X X X 
        X X X X . X X X 
        X X X X X X X X 
        X X X X X X X X 
        X X X X X X X X 
        ";
    assert_eq!(bit_board.to_string(), unindent(result_or));
}

#[test]
fn bitboard_counts_and_squares() {
    let b = BitBoard::new(0x8000_0000_0000_0011);
    assert_eq!(b.count_ones(), 3);
    assert_eq!(b.squares(), vec![Square::A1, Square::E1, Square::H8]);
    assert_eq!(b.first_bit_square(), Some(Square::A1));
    assert_eq!(BitBoard::new(0).first_bit_square(), None);
    assert!(BitBoard::new(0).is_blank());
    assert_eq!(BitBoard::from_square(Square::C2).bits(), 1u64 << 10);
    assert_eq!(BitBoard::from_file(File::B).bits(), 0x0202_0202_0202_0202);
    assert_eq!(BitBoard::new(0x00ff).inverse().bits(), 0xff00_0000_0000_0000);
    assert_eq!((BitBoard::new(0b1100) ^ BitBoard::new(0b1010)).bits(), 0b0110);
}
