use libchess::move_masks::{
    generate_between_masks, generate_bishop_moves, generate_king_moves, generate_knight_moves,
    generate_pawn_captures, generate_pawn_moves, generate_queen_moves, generate_rook_moves,
    BetweenTable, PawnMoveTable, PieceMoveTable, RaysTable,
};
use libchess::squares::{C3, D1, D4, D5, E1, E2, E3, E4, E5, E6, E7, G6, G7};
use libchess::{BitBoard, Color};

#[test]
fn between_diagonal() {
    let mut between_table = BetweenTable::new();
    generate_between_masks(&mut between_table);
    let (square_a, square_b) = (C3, G7);
    let table = between_table.get(square_a, square_b).unwrap();
    let result = 0x0000201008000000u64;
    println!("{}", table.to_string());
    assert_eq!(table.bits(), result);
}

#[test]
fn between_vertical() {
    let mut between_table = BetweenTable::new();
    generate_between_masks(&mut between_table);
    let (square_a, square_b) = (D5, D1);
    let table = between_table.get(square_a, square_b).unwrap();
    let result = 0x0000000008080800u64;
    println!("{}", table.to_string());
    assert_eq!(table.bits(), result);
}

#[test]
fn between_point() {
    let mut between_table = BetweenTable::new();
    generate_between_masks(&mut between_table);
    let (square_a, square_b) = (D5, D5);
    let table = between_table.get(square_a, square_b).unwrap();
    let result = 0u64;
    println!("{}", table.to_string());
    assert_eq!(table.bits(), result);
}

#[test]
fn between_empty() {
    let mut between_table = BetweenTable::new();
    generate_between_masks(&mut between_table);
    let (square_a, square_b) = (D5, C3);
    assert!(between_table.get(square_a, square_b).is_none());
}

#[test]
fn bishops_create() {
    let mut move_table = PieceMoveTable::new();
    generate_bishop_moves(&mut move_table);
    let square = E4;
    let result = 0x0182442800284482u64;
    let table = move_table.get_moves(square);
    println!("{}", table.to_string());
    assert_eq!(table.0, result);
}

#[test]
fn kings_create() {
    let mut move_table = PieceMoveTable::new();
    generate_king_moves(&mut move_table);
    let square = E4;
    let result = 0x000000003828380000u64;
    let table = move_table.get_moves(square);
    println!("{}", table.to_string());
    assert_eq!(table.bits(), result);
}

#[test]
fn knights_create() {
    let mut move_table = PieceMoveTable::new();
    generate_knight_moves(&mut move_table);
    let square = E4;
    let result = 0x0000284400442800u64;
    let table = move_table.get_moves(square);
    println!("{}", table.to_string());
    assert_eq!(table.bits(), result);
}

#[test]
fn rooks_create() {
    let mut move_table = PieceMoveTable::new();
    generate_rook_moves(&mut move_table);
    let square = E4;
    let result = 0x10101010ef101010u64;
    let table = move_table.get_moves(square);
    println!("{}", table.to_string());
    assert_eq!(table.0, result);
}

#[test]
fn queens_create() {
    let mut move_table = PieceMoveTable::new();
    generate_queen_moves(&mut move_table);
    let table = move_table.get_moves(E4);
    assert_eq!(table.bits(), 0x0182442800284482u64 | 0x10101010ef101010u64);
}

#[test]
fn pawns_create() {
    let mut move_table = PawnMoveTable::new();
    generate_pawn_moves(&mut move_table, Color::White);
    generate_pawn_moves(&mut move_table, Color::Black);

    let square = E4;
    let result = 0x0000001000000000u64;
    let table = move_table.get_moves(square, Color::White);
    println!("{}", table.to_string());
    assert_eq!(table.bits(), result);

    let square = E5;
    let result = 0x0000000010000000u64;
    let table = move_table.get_moves(square, Color::Black);
    println!("{}", table.to_string());
    assert_eq!(table.bits(), result);
}

#[test]
fn create_2nd_7th_rank() {
    let mut move_table = PawnMoveTable::new();
    generate_pawn_moves(&mut move_table, Color::White);
    generate_pawn_moves(&mut move_table, Color::Black);

    let square = E2;
    let result = 0x0000000010100000u64;
    let table = move_table.get_moves(square, Color::White);
    println!("{}", table.to_string());
    assert_eq!(table.bits(), result);

    let square = E7;
    let result = 0x0000101000000000u64;
    let table = move_table.get_moves(square, Color::Black);
    println!("{}", table.to_string());
    assert_eq!(table.bits(), result);
}

#[test]
fn captures() {
    let mut move_table = PawnMoveTable::new();
    generate_pawn_captures(&mut move_table, Color::White);
    generate_pawn_captures(&mut move_table, Color::Black);

    let square = E3;
    let result = 0x0000000028000000u64;
    let table = move_table.get_captures(square, Color::White);
    println!("{}", table.to_string());
    assert_eq!(table.bits(), result);

    let square = E6;
    let result = 0x0000002800000000u64;
    let table = move_table.get_captures(square, Color::Black);
    println!("{}", table.to_string());
    assert_eq!(table.bits(), result);
}

#[test]
fn rays_create() {
    let rays_table = RaysTable::default();
    let square = E1;
    assert_eq!(rays_table.get(square)[0], BitBoard::new(0x1010101010101000u64));
    assert_eq!(rays_table.get(square)[4], BitBoard::new(0x0000000080402000u64));

    let square = D4;
    assert_eq!(rays_table.get(square)[1], BitBoard::new(0x0000000000080808u64));
    assert_eq!(rays_table.get(square)[5], BitBoard::new(0x0001020400000000u64));

    let square = G6;
    assert_eq!(rays_table.get(square)[2], BitBoard::new(0x0000800000000000u64));
    assert_eq!(rays_table.get(square)[6], BitBoard::new(0x0000008000000000u64));
}
