//! Games in Portable Game Notation: the tag pairs, an empty line, then the moves in short
//! notation and the result. Regular expressions cut a text into these parts and a text-wrapping
//! routine cuts the moves into lines; what is done with the parts is this library's own.
use crate::board_moves::{properties_of, san_text, BoardMove, MovePropertiesOnBoard};
use crate::chess_boards::{is_start_position, ChessBoard};
use crate::colors::Color;
use crate::errors::LibChessError;
use crate::game_history::history_text;
use crate::games::{
    compare_text, new_game_tags, primary_tags, result_tag, status_of_position, Action, Game,
    GameMetadata, GameStatus,
};
use crate::text::{copy_str, push_char, push_str};
use vstd::prelude::*;

verus! {

/// Whether `regex::Regex::new` accepts the pattern.
pub uninterp spec fn regex_compiles(pattern: Seq<char>) -> bool;

/// The texts of the successive non-overlapping matches of the pattern in the text, as
/// `regex::Regex::find_iter` yields them.
pub uninterp spec fn regex_find_all(pattern: Seq<char>, text: Seq<char>) -> Seq<Seq<char>>;

/// For each successive match of the pattern in the text, as `regex::Regex::captures_iter`
/// yields them, the texts of its first and second groups (`None` for a group that took no part).
pub uninterp spec fn regex_group_pairs(pattern: Seq<char>, text: Seq<char>) -> Seq<(Option<Seq<char>>, Option<Seq<char>>)>;

/// The pieces of the text between the matches of the pattern, as `regex::Regex::split` yields
/// them.
pub uninterp spec fn regex_split(pattern: Seq<char>, text: Seq<char>) -> Seq<Seq<char>>;

/// The lines that `textwrap::wrap` cuts the text into for the width.
pub uninterp spec fn wrapped_lines(text: Seq<char>, width: usize) -> Seq<Seq<char>>;

/// The texts that strings hold.
pub open spec fn texts(v: Seq<String>) -> Seq<Seq<char>> {
    v.map_values(|s: String| s@)
}

/// The text that an optional string holds.
pub open spec fn opt_text(o: Option<String>) -> Option<Seq<char>> {
    match o {
        Some(s) => Some(s@),
        None => None,
    }
}

/// The texts that pairs of optional strings hold.
pub open spec fn pair_texts(v: Seq<(Option<String>, Option<String>)>) -> Seq<(Option<Seq<char>>, Option<Seq<char>>)> {
    v.map_values(|p: (Option<String>, Option<String>)| (opt_text(p.0), opt_text(p.1)))
}

/// Compiles `pattern` with `regex::Regex::new` and collects the texts of its matches in `text`
/// with `find_iter`: `None` exactly when the pattern does not compile, else the named matches.
#[verifier::external_body]
fn find_all(pattern: &str, text: &str) -> (r: Option<Vec<String>>)
    ensures
        r is Some <==> regex_compiles(pattern@),
        r matches Some(v) ==> texts(v@) == regex_find_all(pattern@, text@),
{
    match regex::Regex::new(pattern) {
        Ok(re) => Some(re.find_iter(text).map(|m| m.as_str().to_string()).collect()),
        Err(_) => None,
    }
}

/// Compiles `pattern` with `regex::Regex::new` and collects, for each match in `text` that
/// `captures_iter` yields, the texts of its first and second groups: `None` exactly when the
/// pattern does not compile, else the named pairs.
#[verifier::external_body]
fn group_pairs(pattern: &str, text: &str) -> (r: Option<Vec<(Option<String>, Option<String>)>>)
    ensures
        r is Some <==> regex_compiles(pattern@),
        r matches Some(v) ==> pair_texts(v@) == regex_group_pairs(pattern@, text@),
{
    match regex::Regex::new(pattern) {
        Ok(re) => Some(
            re.captures_iter(text).map(
                |c| (c.get(1).map(|m| m.as_str().to_string()), c.get(2).map(|m| m.as_str().to_string())),
            ).collect(),
        ),
        Err(_) => None,
    }
}

/// Compiles `pattern` with `regex::Regex::new` and collects the pieces of `text` between its
/// matches with `split`: `None` exactly when the pattern does not compile, else the named pieces.
#[verifier::external_body]
fn split_by(pattern: &str, text: &str) -> (r: Option<Vec<String>>)
    ensures
        r is Some <==> regex_compiles(pattern@),
        r matches Some(v) ==> texts(v@) == regex_split(pattern@, text@),
{
    match regex::Regex::new(pattern) {
        Ok(re) => Some(re.split(text).map(|p| p.to_string()).collect()),
        Err(_) => None,
    }
}

/// Cuts `text` into lines of at most `width` columns with `textwrap::wrap`: the named lines.
#[verifier::external_body]
fn wrap_text(text: &str, width: usize) -> (r: Vec<String>)
    ensures
        texts(r@) == wrapped_lines(text@, width),
{
    textwrap::wrap(text, width).into_iter().map(|line| line.into_owned()).collect()
}

/// The pattern of a tag pair: a name in square brackets, then a value in quotes.
pub open spec fn tag_pattern() -> Seq<char> {
    r#"(?x)\[
        (\s*[\w\d_]+) # tag name
        \s+
        "([\s\w\d:/\.\?,-]*)" # tag value in quotes
        \s*
        \]"#@
}

fn tag_pattern_text() -> (r: &'static str)
    ensures
        r@ == tag_pattern(),
{
    r#"(?x)\[
        (\s*[\w\d_]+) # tag name
        \s+
        "([\s\w\d:/\.\?,-]*)" # tag value in quotes
        \s*
        \]"#
}

/// The pattern that parts the tags from the moves: two or more line breaks.
pub open spec fn section_pattern() -> Seq<char> {
    r"(\r?\n){2,}"@
}

fn section_pattern_text() -> (r: &'static str)
    ensures
        r@ == section_pattern(),
{
    r"(\r?\n){2,}"
}

/// The pattern of a move in short notation.
pub open spec fn move_pattern() -> Seq<char> {
    r"(?x)
        (
            (
                ([nNbBrRqQkK]*[a-h]*[1-8]*x*[a-h][1-8])
                |(O-O(-O)?)
            )
            (=[nNbBrRqQ])?
            \+?\#?
        )"@
}

fn move_pattern_text() -> (r: &'static str)
    ensures
        r@ == move_pattern(),
{
    r"(?x)
        (
            (
                ([nNbBrRqQkK]*[a-h]*[1-8]*x*[a-h][1-8])
                |(O-O(-O)?)
            )
            (=[nNbBrRqQ])?
            \+?\#?
        )"
}

/// The pattern of a result.
pub open spec fn result_pattern() -> Seq<char> {
    r"(1-0)|(0-1)|(1/2-1/2)"@
}

fn result_pattern_text() -> (r: &'static str)
    ensures
        r@ == result_pattern(),
{
    r"(1-0)|(0-1)|(1/2-1/2)"
}

/// The width of the lines of moves in a PGN text.
pub const TEXT_WRAP_WIDTH: usize = 85;

/// The line of a tag pair: `[Name "value"]` and a line break.
pub open spec fn tag_line(tag: Seq<char>, value: Seq<char>) -> Seq<char> {
    seq!['['] + tag + seq![' ', '"'] + value + seq!['"', ']', '\n']
}

/// The lines of the first `n` primary tags, in their order.
pub open spec fn primary_tag_lines(tags: Map<Seq<char>, Seq<char>>, n: int) -> Seq<char>
    decreases n,
{
    if n <= 0 {
        Seq::empty()
    } else {
        primary_tag_lines(tags, n - 1) + tag_line(primary_tags()[n - 1], tags[primary_tags()[n - 1]])
    }
}

/// The lines of the tags among the first `n` pairs that are not primary, in their order.
pub open spec fn other_tag_lines(entries: Seq<(Seq<char>, Seq<char>)>, n: int) -> Seq<char>
    decreases n,
{
    if n <= 0 {
        Seq::empty()
    } else {
        other_tag_lines(entries, n - 1) + if primary_tags().contains(entries[n - 1].0) {
            Seq::empty()
        } else {
            tag_line(entries[n - 1].0, entries[n - 1].1)
        }
    }
}

/// The first `n` lines, a line break between each two.
pub open spec fn joined_lines(lines: Seq<Seq<char>>, n: int) -> Seq<char>
    decreases n,
{
    if n <= 0 {
        Seq::empty()
    } else if n == 1 {
        lines[0]
    } else {
        joined_lines(lines, n - 1) + seq!['\n'] + lines[n - 1]
    }
}

/// A PGN text: the primary tags in their order, the other tags in the order of their names
/// (that of `entries`), an empty line, the lines of moves, a space and the result.
pub open spec fn pgn_text(tags: GameMetadata, movetext: Seq<Seq<char>>) -> Seq<char> {
    primary_tag_lines(tags.view_map(), 7) + other_tag_lines(tags.entries(), tags.entries().len() as int) + seq!['\n']
        + joined_lines(movetext, movetext.len() as int) + seq![' '] + tags.view_map()[result_tag()]
}

/// Appends the line of a tag pair.
fn push_tag_line(r: &mut String, tag: &str, value: &str)
    ensures
        final(r)@ == old(r)@ + tag_line(tag@, value@),
{
    push_char(r, '[');
    push_str(r, tag);
    push_char(r, ' ');
    push_char(r, '"');
    push_str(r, value);
    push_char(r, '"');
    push_char(r, ']');
    push_char(r, '\n');
    assert(final(r)@ =~= old(r)@ + tag_line(tag@, value@));
}

/// The name of the `i`-th primary tag.
fn primary_tag_name(i: usize) -> (r: &'static str)
    requires
        i < 7,
    ensures
        r@ == primary_tags()[i as int],
{
    proof {
        reveal_strlit("Event");
        reveal_strlit("Site");
        reveal_strlit("Date");
        reveal_strlit("Round");
        reveal_strlit("White");
        reveal_strlit("Black");
        reveal_strlit("Result");
    }
    match i {
        0 => "Event",
        1 => "Site",
        2 => "Date",
        3 => "Round",
        4 => "White",
        5 => "Black",
        _ => "Result",
    }
}

/// Whether `tag` is one of the primary tags.
fn is_primary_tag(tag: &str) -> (r: bool)
    ensures
        r == primary_tags().contains(tag@),
{
    let mut i: usize = 0;
    while i < 7
        invariant
            i <= 7,
            forall|j: int| 0 <= j < i ==> primary_tags()[j] != tag@,
        decreases 7 - i,
    {
        if compare_text(primary_tag_name(i), tag) == 0 {
            assert(primary_tags()[i as int] == tag@);
            return true;
        }
        i = i + 1;
    }
    proof {
        if primary_tags().contains(tag@) {
            let j = choose|j: int| 0 <= j < primary_tags().len() && primary_tags()[j] == tag@;
            assert(primary_tags()[j] != tag@);
        }
    }
    false
}

/// The PGN text of a game with the tags `tags` whose moves were cut into the lines `movetext`
/// (see `pgn_text`).
pub fn pgn_string(tags: &GameMetadata, movetext: &Vec<String>) -> (r: String)
    requires
        tags.has_primary_tags(),
    ensures
        r@ == pgn_text(*tags, texts(movetext@)),
{
    let ghost map = tags.view_map();
    let mut r = String::new();
    let mut i: usize = 0;
    while i < 7
        invariant
            i <= 7,
            map == tags.view_map(),
            tags.has_primary_tags(),
            r@ == primary_tag_lines(map, i as int),
        decreases 7 - i,
    {
        let name = primary_tag_name(i);
        assert(map.contains_key(primary_tags()[i as int]));
        match tags.get_value(copy_str(name)) {
            Some(v) => {
                push_tag_line(&mut r, name, v.as_str());
            },
            None => {
                assert(false);
            },
        }
        i = i + 1;
    }
    let n = tags.tag_count();
    let mut j: usize = 0;
    while j < n
        invariant
            j <= n,
            n == tags.entries().len(),
            r@ == primary_tag_lines(map, 7) + other_tag_lines(tags.entries(), j as int),
        decreases n - j,
    {
        let (k, v) = tags.tag_at(j);
        if !is_primary_tag(k.as_str()) {
            push_tag_line(&mut r, k.as_str(), v.as_str());
        }
        assert(r@ =~= primary_tag_lines(map, 7) + other_tag_lines(tags.entries(), j + 1));
        j = j + 1;
    }
    push_char(&mut r, '\n');
    let ghost head = r@;
    let ghost lines = texts(movetext@);
    let mut l: usize = 0;
    while l < movetext.len()
        invariant
            l <= movetext@.len(),
            lines == texts(movetext@),
            r@ == head + joined_lines(lines, l as int),
        decreases movetext@.len() - l,
    {
        if l > 0 {
            push_char(&mut r, '\n');
        }
        push_str(&mut r, movetext[l].as_str());
        assert(lines[l as int] == movetext@[l as int]@);
        assert(r@ =~= head + joined_lines(lines, l + 1));
        l = l + 1;
    }
    push_char(&mut r, ' ');
    proof {
        reveal_strlit("Result");
        assert("Result"@ == result_tag());
        assert(primary_tags()[6] == result_tag());
        assert(map.contains_key(primary_tags()[6]));
    }
    match tags.get_value(copy_str("Result")) {
        Some(v) => {
            push_str(&mut r, v.as_str());
        },
        None => {
            assert(false);
        },
    }
    assert(r@ =~= pgn_text(*tags, lines));
    r
}

impl Game {
    /// The PGN text of the game: its tags, and its moves in short notation cut into lines of
    /// at most 85 columns (see `pgn_text`).
    pub fn as_pgn(&self) -> (r: String)
        requires
            self.metadata_spec().has_primary_tags(),
        ensures
            r@ == pgn_text(
                self.metadata_spec(),
                wrapped_lines(history_text(self.history_spec().positions_spec(), self.history_spec().moves_spec()), TEXT_WRAP_WIDTH),
            ),
    {
        let moves = self.get_action_history().to_string();
        let lines = wrap_text(moves.as_str(), TEXT_WRAP_WIDTH);
        pgn_string(self.get_metadata(), &lines)
    }
}


/// The short notation of `mv` in `board`.
pub open spec fn short_text(board: ChessBoard, mv: BoardMove) -> Seq<char> {
    san_text(mv, properties_of(board, mv))
}

/// Some legal move of `board` has the short notation `token`.
pub open spec fn token_is_legal(board: ChessBoard, token: Seq<char>) -> bool {
    exists|m: BoardMove| board.is_legal_spec(m) && #[trigger] short_text(board, m) == token
}

/// The error for a move that the status does not allow, if any.
pub open spec fn move_refusal(status: GameStatus) -> Option<LibChessError> {
    match status {
        GameStatus::Ongoing => None,
        GameStatus::DrawOffered(_) => Some(LibChessError::IllegalActionDetected),
        _ => Some(LibChessError::GameIsAlreadyFinished),
    }
}

/// Why the move `token` cannot be played in `g`, if it cannot: no legal move has that short
/// notation, or the status refuses moves.
pub open spec fn token_refusal(g: Game, token: Seq<char>) -> Option<LibChessError> {
    if !token_is_legal(g.position_spec(), token) {
        Some(LibChessError::InvalidPGNString)
    } else {
        move_refusal(g.game_status_spec())
    }
}

/// `next` is `g` after the legal move whose short notation is `token` (no two legal moves share
/// one: see `crate::san::lemma_short_notation_unique`).
pub open spec fn plays_token(g: Game, token: Seq<char>, next: Game) -> bool {
    exists|m: BoardMove|
        g.position_spec().is_legal_spec(m) && short_text(g.position_spec(), m) == token && #[trigger] g.takes(
            Action::MakeMove(m),
            next,
            Ok(()),
        )
}

/// The tags `tags` after the tag pairs, in order; a pair with a missing part is passed over.
pub open spec fn apply_tag_pairs(
    tags: Map<Seq<char>, Seq<char>>,
    pairs: Seq<(Option<Seq<char>>, Option<Seq<char>>)>,
) -> Map<Seq<char>, Seq<char>>
    decreases pairs.len(),
{
    if pairs.len() == 0 {
        tags
    } else {
        let before = apply_tag_pairs(tags, pairs.drop_last());
        match pairs.last() {
            (Some(k), Some(v)) => before.insert(k, v),
            _ => before,
        }
    }
}

/// `g` is a new game at the starting position whose tags took the pairs.
pub open spec fn pgn_start(g: Game, pairs: Seq<(Option<Seq<char>>, Option<Seq<char>>)>) -> bool {
    &&& g.wf()
    &&& is_start_position(g.position_spec())
    &&& g.history_spec().positions_spec() == seq![g.position_spec()]
    &&& g.history_spec().moves_spec() == Seq::<BoardMove>::empty()
    &&& g.counts() == Map::<u64, usize>::empty().insert(g.position_spec().hash_spec(), 1)
    &&& g.game_status_spec() == status_of_position(g.position_spec(), 0)
    &&& g.metadata_spec().view_map() == apply_tag_pairs(new_game_tags(g.position_spec()), pairs)
}

/// The games `games` replay the first `games.len() - 1` move tokens: the first is the new game
/// with the tags, and each next one is the one before after its token.
pub open spec fn replays(
    games: Seq<Game>,
    pairs: Seq<(Option<Seq<char>>, Option<Seq<char>>)>,
    tokens: Seq<Seq<char>>,
) -> bool {
    &&& 1 <= games.len() <= tokens.len() + 1
    &&& pgn_start(games[0], pairs)
    &&& forall|i: int| 0 <= i < games.len() - 1 ==> #[trigger] plays_token(games[i], tokens[i], games[i + 1])
}

/// The game `g`, its moves read, closed by the result token `result`: left as it is when it is
/// over; else black resigns for "1-0", white resigns for "0-1", and a draw that white offers is
/// accepted for "1/2-1/2"; any other result token, or none, is an error.
pub open spec fn closes(g: Game, result: Option<Seq<char>>, r: Result<Game, LibChessError>) -> bool {
    if g.game_status_spec() != GameStatus::Ongoing {
        r == Ok::<Game, LibChessError>(g)
    } else if result == Some(seq!['1', '-', '0']) {
        r matches Ok(x) && g.takes(Action::Resign(Color::Black), x, Ok(()))
    } else if result == Some(seq!['0', '-', '1']) {
        r matches Ok(x) && g.takes(Action::Resign(Color::White), x, Ok(()))
    } else if result == Some(seq!['1', '/', '2', '-', '1', '/', '2']) {
        r matches Ok(x) && exists|mid: Game|
            #[trigger] g.takes(Action::OfferDraw(Color::White), mid, Ok(())) && mid.takes(Action::AcceptDraw, x, Ok(()))
    } else {
        r == Err::<Game, LibChessError>(LibChessError::InvalidPGNString)
    }
}

/// What reading a PGN text with these parts gives: the moves are replayed until a token cannot
/// be played, which gives its refusal; after the last token the result closes the game.
pub open spec fn reads_pgn(
    pairs: Seq<(Option<Seq<char>>, Option<Seq<char>>)>,
    tokens: Seq<Seq<char>>,
    result: Option<Seq<char>>,
    r: Result<Game, LibChessError>,
) -> bool {
    exists|games: Seq<Game>|
        #[trigger] replays(games, pairs, tokens) && {
            let k = games.len() - 1;
            if k < tokens.len() {
                token_refusal(games[k], tokens[k]) matches Some(e) && r == Err::<Game, LibChessError>(e)
            } else {
                closes(games[k], result, r)
            }
        }
}

/// The parts of a PGN text: the tag pairs found in it, and, in its second section, the move
/// tokens and the first result token; `None` when a pattern does not compile or the text has
/// no second section.
pub open spec fn pgn_parts(pgn: Seq<char>) -> Option<
    (Seq<(Option<Seq<char>>, Option<Seq<char>>)>, Seq<Seq<char>>, Option<Seq<char>>),
> {
    if !regex_compiles(tag_pattern()) || !regex_compiles(section_pattern()) || !regex_compiles(move_pattern())
        || !regex_compiles(result_pattern()) {
        None
    } else {
        let sections = regex_split(section_pattern(), pgn);
        if sections.len() < 2 {
            None
        } else {
            let results = regex_find_all(result_pattern(), sections[1]);
            Some(
                (
                    regex_group_pairs(tag_pattern(), pgn),
                    regex_find_all(move_pattern(), sections[1]),
                    if results.len() > 0 {
                        Some(results[0])
                    } else {
                        None
                    },
                ),
            )
        }
    }
}

/// The last legal move of the list whose short notation is `token`.
fn find_move(board: ChessBoard, legal: &Vec<BoardMove>, token: &str) -> (r: Option<BoardMove>)
    requires
        board.halfmoves() < usize::MAX,
        board.fullmoves() < usize::MAX,
        forall|mv: BoardMove| legal@.contains(mv) <==> #[trigger] board.is_legal_spec(mv),
    ensures
        r matches Some(m) ==> board.is_legal_spec(m) && short_text(board, m) == token@,
        r is None ==> !token_is_legal(board, token@),
{
    let mut found: Option<BoardMove> = None;
    let mut i: usize = 0;
    while i < legal.len()
        invariant
            i <= legal@.len(),
            board.halfmoves() < usize::MAX,
            board.fullmoves() < usize::MAX,
            forall|mv: BoardMove| legal@.contains(mv) <==> #[trigger] board.is_legal_spec(mv),
            found matches Some(m) ==> board.is_legal_spec(m) && short_text(board, m) == token@,
            found is None ==> forall|j: int| 0 <= j < i ==> short_text(board, #[trigger] legal@[j]) != token@,
        decreases legal@.len() - i,
    {
        let m = legal[i];
        assert(legal@.contains(m));
        match MovePropertiesOnBoard::new(m, board) {
            Ok(pr) => {
                let text = m.to_string(pr);
                if compare_text(text.as_str(), token) == 0 {
                    found = Some(m);
                }
            },
            Err(_) => {},
        }
        i = i + 1;
    }
    proof {
        if found is None && token_is_legal(board, token@) {
            let m = choose|m: BoardMove| board.is_legal_spec(m) && #[trigger] short_text(board, m) == token@;
            assert(legal@.contains(m));
            let j = choose|j: int| 0 <= j < legal@.len() && legal@[j] == m;
            assert(short_text(board, legal@[j]) != token@);
        }
    }
    found
}

impl Game {
    /// The game that PGN parts describe (see `reads_pgn`): a new game whose tags take the tag
    /// pairs, in which the move tokens are played in turn, closed by the result token.
    pub fn from_pgn_parts(
        pairs: &Vec<(Option<String>, Option<String>)>,
        tokens: &Vec<String>,
        result: Option<String>,
    ) -> (r: Result<Game, LibChessError>)
        ensures
            reads_pgn(pair_texts(pairs@), texts(tokens@), opt_text(result), r),
    {
        let ghost pv = pair_texts(pairs@);
        let ghost tv = texts(tokens@);
        let mut game = Game::default();
        let ghost start = game.position_spec();
        let mut i: usize = 0;
        while i < pairs.len()
            invariant
                i <= pairs@.len(),
                pv == pair_texts(pairs@),
                game.wf(),
                game.position_spec() == start,
                is_start_position(start),
                game.history_spec().positions_spec() == seq![start],
                game.history_spec().moves_spec() == Seq::<BoardMove>::empty(),
                game.counts() == Map::<u64, usize>::empty().insert(start.hash_spec(), 1),
                game.game_status_spec() == status_of_position(start, 0),
                game.metadata_spec().view_map() == apply_tag_pairs(new_game_tags(start), pv.take(i as int)),
            decreases pairs@.len() - i,
        {
            assert(pv.take(i + 1).drop_last() =~= pv.take(i as int));
            match &pairs[i] {
                (Some(k), Some(v)) => {
                    game.set_tag_value(copy_str(k.as_str()), copy_str(v.as_str()));
                },
                _ => {},
            }
            i = i + 1;
        }
        assert(pv.take(pairs@.len() as int) =~= pv);
        let ghost mut games: Seq<Game> = seq![game];
        let mut j: usize = 0;
        while j < tokens.len()
            invariant
                j <= tokens@.len(),
                pv == pair_texts(pairs@),
                tv == texts(tokens@),
                games.len() == j + 1,
                games.last() == game,
                replays(games, pv, tv),
                game.wf(),
                game.position_spec().halfmoves() <= j,
                2 * game.position_spec().fullmoves() <= j + 2,
                game.position_spec().side() == Color::Black ==> 2 * game.position_spec().fullmoves() <= j + 1,
            decreases tokens@.len() - j,
        {
            let board = game.get_position();
            let legal = game.get_legal_moves();
            let token = tokens[j].as_str();
            assert(tv[j as int] == token@);
            match find_move(board, &legal, token) {
                None => {
                    proof {
                        assert(token_refusal(games[j as int], tv[j as int]) == Some(LibChessError::InvalidPGNString));
                        assert(replays(games, pv, tv));
                    }
                    return Err(LibChessError::InvalidPGNString);
                },
                Some(m) => {
                    let ghost before = game;
                    let res = game.take_action(Action::MakeMove(m));
                    proof {
                        assert(before.takes(Action::MakeMove(m), game, res));
                    }
                    match res {
                        Ok(()) => {
                            proof {
                                assert(before.takes(Action::MakeMove(m), game, Ok(())));
                            }
                        },
                        Err(e) => {
                            proof {
                                assert(token_is_legal(board, tv[j as int]));
                                assert(token_refusal(games[j as int], tv[j as int]) == Some(e));
                                assert(replays(games, pv, tv));
                            }
                            return Err(e);
                        },
                    }
                    proof {
                        assert(plays_token(before, tv[j as int], game));
                        let old_games = games;
                        games = games.push(game);
                        assert forall|k: int| 0 <= k < games.len() - 1 implies #[trigger] plays_token(games[k], tv[k], games[k + 1]) by {
                            if k < j {
                                assert(games[k] == old_games[k]);
                                assert(games[k + 1] == old_games[k + 1]);
                            }
                        }
                    }
                },
            }
            j = j + 1;
        }
        proof {
            assert(replays(games, pv, tv));
        }
        let ghost last = game;
        let ghost rv = opt_text(result);
        assert(last == games[games.len() - 1]);
        if game.get_game_status() != GameStatus::Ongoing {
            assert(closes(last, rv, Ok(game)));
            return Ok(game);
        }
        proof {
            reveal_strlit("1-0");
            reveal_strlit("0-1");
            reveal_strlit("1/2-1/2");
            assert("1-0"@ == seq!['1', '-', '0']);
            assert("0-1"@ == seq!['0', '-', '1']);
            assert("1/2-1/2"@ == seq!['1', '/', '2', '-', '1', '/', '2']);
        }
        match &result {
            Some(t) => {
                if compare_text(t.as_str(), "1-0") == 0 {
                    let res = game.take_action(Action::Resign(Color::Black));
                    proof {
                        assert(last.takes(Action::Resign(Color::Black), game, res));
                    }
                    match res {
                        Ok(()) => {
                            proof {
                                assert(last.takes(Action::Resign(Color::Black), game, Ok(())));
                                assert(closes(last, rv, Ok(game)));
                            }
                            Ok(game)
                        },
                        Err(e) => {
                            assert(false);
                            Err(e)
                        },
                    }
                } else if compare_text(t.as_str(), "0-1") == 0 {
                    let res = game.take_action(Action::Resign(Color::White));
                    proof {
                        assert(last.takes(Action::Resign(Color::White), game, res));
                    }
                    match res {
                        Ok(()) => {
                            proof {
                                assert(last.takes(Action::Resign(Color::White), game, Ok(())));
                                assert(rv != Some(seq!['1', '-', '0']));
                                assert(closes(last, rv, Ok(game)));
                            }
                            Ok(game)
                        },
                        Err(e) => {
                            assert(false);
                            Err(e)
                        },
                    }
                } else if compare_text(t.as_str(), "1/2-1/2") == 0 {
                    let first = game.take_action(Action::OfferDraw(Color::White));
                    let ghost mid = game;
                    proof {
                        assert(last.takes(Action::OfferDraw(Color::White), mid, first));
                    }
                    match first {
                        Ok(()) => {},
                        Err(e) => {
                            assert(false);
                            return Err(e);
                        },
                    }
                    let res = game.take_action(Action::AcceptDraw);
                    proof {
                        assert(mid.takes(Action::AcceptDraw, game, res));
                    }
                    match res {
                        Ok(()) => {
                            proof {
                                assert(last.takes(Action::OfferDraw(Color::White), mid, Ok(())));
                                assert(mid.takes(Action::AcceptDraw, game, Ok(())));
                                assert(rv != Some(seq!['1', '-', '0']));
                                assert(rv != Some(seq!['0', '-', '1']));
                                assert(closes(last, rv, Ok(game)));
                            }
                            Ok(game)
                        },
                        Err(e) => {
                            assert(false);
                            Err(e)
                        },
                    }
                } else {
                    proof {
                        assert(closes(last, rv, Err(LibChessError::InvalidPGNString)));
                    }
                    Err(LibChessError::InvalidPGNString)
                }
            },
            None => {
                assert(closes(last, rv, Err(LibChessError::InvalidPGNString)));
                Err(LibChessError::InvalidPGNString)
            },
        }
    }

    /// The game that a PGN text records (see `pgn_parts` and `reads_pgn`): an error when the
    /// text has no second section.
    pub fn from_pgn(pgn: &str) -> (r: Result<Game, LibChessError>)
        ensures
            pgn_parts(pgn@) is None ==> r == Err::<Game, LibChessError>(LibChessError::InvalidPGNString),
            pgn_parts(pgn@) matches Some(parts) ==> reads_pgn(parts.0, parts.1, parts.2, r),
    {
        let pairs = match group_pairs(tag_pattern_text(), pgn) {
            Some(p) => p,
            None => return Err(LibChessError::InvalidPGNString),
        };
        let sections = match split_by(section_pattern_text(), pgn) {
            Some(s) => s,
            None => return Err(LibChessError::InvalidPGNString),
        };
        if sections.len() < 2 {
            proof {
                assert(texts(sections@).len() == sections@.len());
            }
            return Err(LibChessError::InvalidPGNString);
        }
        let movetext = sections[1].as_str();
        proof {
            assert(texts(sections@)[1] == movetext@);
        }
        let tokens = match find_all(move_pattern_text(), movetext) {
            Some(t) => t,
            None => return Err(LibChessError::InvalidPGNString),
        };
        let results = match find_all(result_pattern_text(), movetext) {
            Some(t) => t,
            None => return Err(LibChessError::InvalidPGNString),
        };
        let result = if results.len() > 0 {
            proof {
                assert(texts(results@)[0] == results@[0]@);
            }
            Some(copy_str(results[0].as_str()))
        } else {
            proof {
                assert(texts(results@).len() == 0);
            }
            None
        };
        Game::from_pgn_parts(&pairs, &tokens, result)
    }
}

} // verus!
