//! Drawing a position as text for a terminal: one line per rank inside a frame, light squares
//! on a white background when the terminal shows colors.
use crate::board_builders::piece_letter;
use crate::castling::CastlingRights;
use crate::chess_boards::ChessBoard;
use crate::colors::Color;
use crate::pieces::Piece;
use crate::rules::Place;
use crate::text::{push_char, push_str};
use colored::Colorize;
use vstd::prelude::*;

verus! {

/// The escape sequence that sets a white background.
pub open spec fn white_background() -> Seq<char> {
    seq!['\u{1b}', '[', '4', '7', 'm']
}

/// The escape sequence that sets a white background and black letters.
pub open spec fn black_on_white() -> Seq<char> {
    seq!['\u{1b}', '[', '4', '7', ';', '3', '0', 'm']
}

/// The escape sequence that resets the colors.
pub open spec fn color_reset() -> Seq<char> {
    seq!['\u{1b}', '[', '0', 'm']
}

/// The text holds no escape character.
pub open spec fn no_escape(t: Seq<char>) -> bool {
    forall|i: int| 0 <= i < t.len() ==> t[i] != '\u{1b}'
}

/// `text` on a white background (`colored`'s `on_white`). Whether the colors are written
/// depends on the environment (the terminal, `NO_COLOR`, `CLICOLOR`, `CLICOLOR_FORCE`), so
/// either the plain text or the text between the escape sequences comes back.
#[verifier::external_body]
fn on_white_text(text: &str) -> (r: String)
    requires
        no_escape(text@),
    ensures
        r@ == text@ || r@ == white_background() + text@ + color_reset(),
{
    text.on_white().to_string()
}

/// `text` in black on a white background (`colored`'s `black` then `on_white`). As for
/// `on_white_text`, the environment decides whether the colors are written.
#[verifier::external_body]
fn black_on_white_text(text: &str) -> (r: String)
    requires
        no_escape(text@),
    ensures
        r@ == text@ || r@ == black_on_white() + text@ + color_reset(),
{
    text.black().on_white().to_string()
}

/// A square is light when its rank and file indices differ in parity.
pub open spec fn light_square(i: int) -> bool {
    (i / 8 + i % 8) % 2 != 0
}

/// A square is drawn in color exactly when it is light, as `Square::is_light` tells, and the
/// colors were written: the drawing of a dark square, or of any square without colors, is its
/// bare text, and a light square with colors gets the white background.
pub proof fn lemma_colored_exactly_light_squares(p: Place, i: int, colored: bool)
    requires
        0 <= i < 64,
    ensures
        light_square(i) == crate::coordinates::Square::from_idx(i).is_light_spec(),
        (cell_shown(p, i, colored) != cell_text(p, i)) <==> (colored && crate::coordinates::Square::from_idx(
            i,
        ).is_light_spec()),
        colored && crate::coordinates::Square::from_idx(i).is_light_spec() ==> cell_shown(p, i, colored).take(4)
            == white_background().take(4),
{
    crate::coordinates::Square::lemma_from_idx(i);
    if light_square(i) && colored {
        let pre = if p(i) is Some { black_on_white() } else { white_background() };
        let shown = pre + cell_text(p, i) + color_reset();
        assert(shown.len() == pre.len() + 3 + 4);
        assert(cell_text(p, i).len() == 3);
        assert(shown.take(4) =~= white_background().take(4)) by {
            assert forall|j: int| 0 <= j < 4 implies shown[j] == white_background()[j] by {
                assert(shown[j] == pre[j]);
            }
        }
    }
}

/// The three characters of a square: the piece letter between spaces, or three spaces.
pub open spec fn cell_text(p: Place, i: int) -> Seq<char> {
    match p(i) {
        Some(pc) => seq![' ', piece_letter(pc), ' '],
        None => seq![' ', ' ', ' '],
    }
}

/// A square as drawn: on a light square, when `colored` says the colors were written, between
/// the escape sequences.
pub open spec fn cell_shown(p: Place, i: int, colored: bool) -> Seq<char> {
    if light_square(i) && colored {
        (if p(i) is Some {
            black_on_white()
        } else {
            white_background()
        }) + cell_text(p, i) + color_reset()
    } else {
        cell_text(p, i)
    }
}

/// The square in column `k` (0..8, left to right) of rank `rank`.
pub open spec fn column_square(rank: int, k: int, flipped: bool) -> int {
    if flipped {
        rank * 8 + (7 - k)
    } else {
        rank * 8 + k
    }
}

/// The rank in row `j` (0..8, top to bottom).
pub open spec fn row_rank(j: int, flipped: bool) -> int {
    if flipped {
        j
    } else {
        7 - j
    }
}

/// The first `k` squares of the row of rank `rank`.
pub open spec fn cells_text(p: Place, rank: int, flipped: bool, colored: spec_fn(int) -> bool, k: int) -> Seq<char>
    decreases k,
{
    if k <= 0 {
        Seq::empty()
    } else {
        let i = column_square(rank, k - 1, flipped);
        cells_text(p, rank, flipped, colored, k - 1) + cell_shown(p, i, colored(i))
    }
}

/// The line of rank `rank`: its number, the frame, its eight squares, the frame.
pub open spec fn row_text(p: Place, rank: int, flipped: bool, colored: spec_fn(int) -> bool) -> Seq<char> {
    seq![(rank + 49) as char, ' ', ' ', '║'] + cells_text(p, rank, flipped, colored, 8) + seq!['║', '\n']
}

/// The first `j` lines of ranks.
pub open spec fn rows_text(p: Place, flipped: bool, colored: spec_fn(int) -> bool, j: int) -> Seq<char>
    decreases j,
{
    if j <= 0 {
        Seq::empty()
    } else {
        rows_text(p, flipped, colored, j - 1) + row_text(p, row_rank(j - 1, flipped), flipped, colored)
    }
}

/// The castling rights as in a FEN text, without the "-" for none.
pub open spec fn rights_text(white: CastlingRights, black: CastlingRights) -> Seq<char> {
    white.letters_spec().map_values(|c: char| ((c as int) - 32) as char) + black.letters_spec()
}

pub open spec fn top_frame() -> Seq<char> {
    seq![' ', ' ', ' ', '╔'] + Seq::new(24, |i: int| '═') + seq!['╗']
}

pub open spec fn bottom_frame() -> Seq<char> {
    seq![' ', ' ', ' ', '╚'] + Seq::new(24, |i: int| '═') + seq!['╝']
}

/// The letters of the files under the board, left to right.
pub open spec fn footer_text(flipped: bool) -> Seq<char> {
    seq![' ', ' ', ' ', ' ', ' '] + if flipped {
        seq!['h', ' ', ' ', 'g', ' ', ' ', 'f', ' ', ' ', 'e', ' ', ' ', 'd', ' ', ' ', 'c', ' ', ' ', 'b', ' ', ' ', 'a']
    } else {
        seq!['a', ' ', ' ', 'b', ' ', ' ', 'c', ' ', ' ', 'd', ' ', ' ', 'e', ' ', ' ', 'f', ' ', ' ', 'g', ' ', ' ', 'h']
    }
}

/// The drawing of a board: the side to move and the castling rights, the framed ranks (the
/// eighth on top, or the first when `flipped`), and the file letters; `colored` tells for each
/// light square whether its colors were written.
pub open spec fn board_text(b: ChessBoard, flipped: bool, colored: spec_fn(int) -> bool) -> Seq<char> {
    seq![' ', ' ', ' '] + b.side().name_spec() + seq![' ', ' '] + rights_text(b.rights(Color::White), b.rights(Color::Black))
        + seq!['\n'] + top_frame() + seq!['\n'] + rows_text(b.place(), flipped, colored, 8) + bottom_frame()
        + seq!['\n'] + footer_text(flipped) + seq!['\n']
}

fn cell_string(piece: Option<Piece>) -> (r: String)
    ensures
        r@ == match piece {
            Some(pc) => seq![' ', piece_letter(pc), ' '],
            None => seq![' ', ' ', ' '],
        },
        no_escape(r@),
{
    let mut r = String::new();
    push_char(&mut r, ' ');
    match piece {
        Some(pc) => push_char(&mut r, crate::board_builders::piece_letter_exec(pc)),
        None => push_char(&mut r, ' '),
    }
    push_char(&mut r, ' ');
    proof {
        match piece {
            Some(pc) => {
                assert(r@ =~= seq![' ', piece_letter(pc), ' ']);
            },
            None => {
                assert(r@ =~= seq![' ', ' ', ' ']);
            },
        }
    }
    r
}

impl ChessBoard {
    /// Appends the squares of rank `rank`; the colors written on them replace what `colored`
    /// says of that rank.
    fn push_cells(&self, out: &mut String, rank: usize, flipped: bool, Ghost(colored): Ghost<spec_fn(int) -> bool>) -> (painted: Ghost<spec_fn(int) -> bool>)
        requires
            rank < 8,
        ensures
            final(out)@ == old(out)@ + cells_text(self.place(), rank as int, flipped, painted@, 8),
            forall|x: int| x / 8 != rank ==> #[trigger] painted@(x) == colored(x),
    {
        let ghost start = out@;
        let ghost mut painted = colored;
        let mut k: usize = 0;
        while k < 8
            invariant
                k <= 8,
                rank < 8,
                out@ == start + cells_text(self.place(), rank as int, flipped, painted, k as int),
                forall|x: int| x / 8 != rank ==> #[trigger] painted(x) == colored(x),
            decreases 8 - k,
        {
            let i = if flipped {
                rank * 8 + (7 - k)
            } else {
                rank * 8 + k
            };
            let sq = crate::coordinates::Square::from_u8(i as u8);
            let piece = self.get_piece_on(sq);
            let text = cell_string(piece);
            let ghost old_painted = painted;
            let light = (i / 8 + i % 8) % 2 != 0;
            let shown = if light {
                match piece {
                    Some(_) => black_on_white_text(text.as_str()),
                    None => on_white_text(text.as_str()),
                }
            } else {
                text
            };
            proof {
                assert(i as int == column_square(rank as int, k as int, flipped));
                let was_colored = shown@ != cell_text(self.place(), i as int);
                painted = |x: int| if x == i as int { was_colored } else { old_painted(x) };
                lemma_cells_text_frame(self.place(), rank as int, flipped, painted, old_painted, k as int);
                if light {
                    if was_colored {
                        assert(shown@ == cell_shown(self.place(), i as int, true));
                    } else {
                        assert(shown@ == cell_shown(self.place(), i as int, false));
                    }
                }
                assert(shown@ == cell_shown(self.place(), i as int, painted(i as int)));
            }
            push_str(out, shown.as_str());
            k = k + 1;
        }
        Ghost(painted)
    }
}

/// Squares not yet drawn do not change the text of the squares already drawn.
proof fn lemma_cells_text_frame(p: Place, rank: int, flipped: bool, c1: spec_fn(int) -> bool, c2: spec_fn(int) -> bool, k: int)
    requires
        0 <= k <= 8,
        forall|j: int| 0 <= j < k ==> c1(#[trigger] column_square(rank, j, flipped)) == c2(column_square(rank, j, flipped)),
    ensures
        cells_text(p, rank, flipped, c1, k) == cells_text(p, rank, flipped, c2, k),
    decreases k,
{
    if k > 0 {
        lemma_cells_text_frame(p, rank, flipped, c1, c2, k - 1);
        assert(c1(column_square(rank, k - 1, flipped)) == c2(column_square(rank, k - 1, flipped)));
    }
}

/// Rank `rank` is among the first `j` ranks drawn.
pub open spec fn rank_drawn(rank: int, j: int, flipped: bool) -> bool {
    if flipped {
        rank < j
    } else {
        rank >= 8 - j
    }
}

/// The drawing of the ranks depends only on what `colored` says of their squares.
proof fn lemma_rows_text_frame(p: Place, flipped: bool, c1: spec_fn(int) -> bool, c2: spec_fn(int) -> bool, j: int)
    requires
        0 <= j <= 8,
        forall|x: int| 0 <= x < 64 && rank_drawn(x / 8, j, flipped) ==> #[trigger] c1(x) == c2(x),
    ensures
        rows_text(p, flipped, c1, j) == rows_text(p, flipped, c2, j),
    decreases j,
{
    if j > 0 {
        lemma_rows_text_frame(p, flipped, c1, c2, j - 1);
        let rank = row_rank(j - 1, flipped);
        assert forall|k: int| 0 <= k < 8 implies c1(#[trigger] column_square(rank, k, flipped)) == c2(column_square(rank, k, flipped)) by {
            let x = column_square(rank, k, flipped);
            assert(x / 8 == row_rank(j - 1, flipped));
        }
        lemma_cells_text_frame(p, rank, flipped, c1, c2, 8);
    }
}

/// The lines above the ranks: the side to move and the castling rights, then the frame.
pub open spec fn header_text(b: ChessBoard) -> Seq<char> {
    seq![' ', ' ', ' '] + b.side().name_spec() + seq![' ', ' '] + rights_text(b.rights(Color::White), b.rights(Color::Black))
        + seq!['\n'] + top_frame() + seq!['\n']
}

/// The lines below the ranks: the frame and the file letters.
pub open spec fn footer_lines(flipped: bool) -> Seq<char> {
    bottom_frame() + seq!['\n'] + footer_text(flipped) + seq!['\n']
}

impl ChessBoard {
    fn header_string(&self) -> (r: String)
        ensures
            r@ == header_text(*self),
    {
        let mut out = String::new();
        push_str(&mut out, "   ");
        let side = self.get_side_to_move().to_string();
        push_str(&mut out, side.as_str());
        push_str(&mut out, "  ");
        let ghost a = out@;
        let white = self.get_castle_rights(Color::White);
        if white.has_kingside() {
            push_char(&mut out, 'K');
        }
        if white.has_queenside() {
            push_char(&mut out, 'Q');
        }
        let black = self.get_castle_rights(Color::Black).to_string();
        push_str(&mut out, black.as_str());
        proof {
            assert(out@ =~= a + rights_text(self.rights(Color::White), self.rights(Color::Black)));
        }
        push_char(&mut out, '\n');
        push_str(&mut out, "   ╔════════════════════════╗");
        push_char(&mut out, '\n');
        proof {
            reveal_strlit("   ");
            reveal_strlit("  ");
            reveal_strlit("   ╔════════════════════════╗");
            assert("   ╔════════════════════════╗"@ =~= top_frame());
            assert(out@ =~= header_text(*self));
        }
        out
    }

    fn push_rows(&self, out: &mut String, flipped: bool) -> (colored: Ghost<spec_fn(int) -> bool>)
        ensures
            final(out)@ == old(out)@ + rows_text(self.place(), flipped, colored@, 8),
    {
        let ghost head = out@;
        let ghost mut colored: spec_fn(int) -> bool = |x: int| false;
        let mut j: usize = 0;
        while j < 8
            invariant
                j <= 8,
                out@ == head + rows_text(self.place(), flipped, colored, j as int),
            decreases 8 - j,
        {
            let rank = if flipped {
                j
            } else {
                7 - j
            };
            let ghost before = out@;
            let ghost old_colored = colored;
            let digit = match rank {
                0 => '1',
                1 => '2',
                2 => '3',
                3 => '4',
                4 => '5',
                5 => '6',
                6 => '7',
                _ => '8',
            };
            push_char(out, digit);
            push_str(out, "  ║");
            let ghost mid = out@;
            let painted = self.push_cells(out, rank, flipped, Ghost(colored));
            push_str(out, "║\n");
            proof {
                reveal_strlit("  ║");
                reveal_strlit("║\n");
                colored = painted@;
                assert(rank as int == row_rank(j as int, flipped));
                assert forall|x: int| 0 <= x < 64 && rank_drawn(x / 8, j as int, flipped) implies #[trigger] colored(x) == old_colored(x) by {
                    assert(x / 8 != rank);
                }
                lemma_rows_text_frame(self.place(), flipped, colored, old_colored, j as int);
                assert(mid =~= before + seq![(rank + 49) as char, ' ', ' ', '║']);
                assert(out@ =~= before + row_text(self.place(), rank as int, flipped, colored));
            }
            j = j + 1;
        }
        Ghost(colored)
    }

    fn footer_string(flipped: bool) -> (r: String)
        ensures
            r@ == footer_lines(flipped),
    {
        let mut out = String::new();
        push_str(&mut out, "   ╚════════════════════════╝");
        push_char(&mut out, '\n');
        push_str(&mut out, "     ");
        if flipped {
            push_str(&mut out, "h  g  f  e  d  c  b  a");
        } else {
            push_str(&mut out, "a  b  c  d  e  f  g  h");
        }
        push_char(&mut out, '\n');
        proof {
            reveal_strlit("   ╚════════════════════════╝");
            reveal_strlit("     ");
            reveal_strlit("h  g  f  e  d  c  b  a");
            reveal_strlit("a  b  c  d  e  f  g  h");
            assert("   ╚════════════════════════╝"@ =~= bottom_frame());
            assert(out@ =~= footer_lines(flipped));
        }
        out
    }

    /// Draws the board, the eighth rank on top (or the first when `flipped`).
    fn render(&self, flipped: bool) -> (r: String)
        ensures
            exists|colored: spec_fn(int) -> bool| r@ == board_text(*self, flipped, colored),
    {
        let mut out = self.header_string();
        let colored = self.push_rows(&mut out, flipped);
        let footer = ChessBoard::footer_string(flipped);
        push_str(&mut out, footer.as_str());
        proof {
            assert(out@ =~= board_text(*self, flipped, colored@));
        }
        out
    }

    /// The board drawn with the eighth rank on top, the side to move and the castling rights
    /// above it and the file letters below (light squares in color when the terminal shows
    /// colors).
    pub fn render_straight(&self) -> (r: String)
        ensures
            exists|colored: spec_fn(int) -> bool| r@ == board_text(*self, false, colored),
    {
        self.render(false)
    }

    /// The board drawn with the first rank on top and the h-file on the left.
    pub fn render_flipped(&self) -> (r: String)
        ensures
            exists|colored: spec_fn(int) -> bool| r@ == board_text(*self, true, colored),
    {
        self.render(true)
    }
}

} // verus!
