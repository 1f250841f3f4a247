# libchess

A chess library whose behaviour is stated in contracts and proved with Verus: board
representation on 64-bit masks, move generation under the full rules (castling, en passant,
promotion), check, mate and stalemate detection, Zobrist hashing, FEN, long and short (SAN)
move notation, games with draw offers, resignation and repetition counting, and PGN.

## Layout

- `src/rules.rs` states the rules of chess over a placement of pieces (a map from square
  indices to pieces); the executable code in `src/movegen.rs`, `src/placement.rs` and
  `src/chess_boards.rs` is proved against it.
- `src/chess_boards.rs`: `ChessBoard`, whose type invariant ties the stored masks, pins,
  checks and terminal flag to the position, and keeps castling rights and the en-passant
  square in agreement with the pieces; `hash_after_move` updates a position's Zobrist hash
  by a move, proved equal to the hash of the new position.
- `src/board_builders.rs`: `BoardBuilder` and FEN, with the laws that the FEN text of a builder
  reads back as the builder and that a FEN text in canonical form comes back unchanged.
- `src/board_moves.rs`, `src/san.rs`: moves and their notations, with the laws that long
  notation reads back as the move and that short notation tells legal moves apart.
- `src/games.rs`, `src/game_history.rs`, `src/pgn.rs`: games as a state machine (`Game::takes`
  states what an action does, and a game keeps the hash of its position up to date move by
  move), their history and tags, and PGN reading and writing.
- `src/zobrist.rs`, `src/render.rs`: hashing with seeded random keys, and terminal drawing.
- `app/lib.rs`: the error type with `std::error::Error` and messages, and shared Zobrist
  tables.
- `tests/`: the behaviour on concrete positions and games.
