//! A position plus the history needed to see repetitions coming.
//!
//! A draw by repetition is worth half a point, and half a point is a defeat for
//! this engine's purposes. It therefore has to know which positions it has
//! already visited, and a [`Position`] on its own does not remember.

use vstd::prelude::*;
use vstd::string::*;

use crate::bits;
use crate::chess::{Color, Move, Position};
use crate::rules;
use crate::rules::{
    find_uci, parse_fen, parse_uci, set_up, write_fen, zobrist_hash, Seat,
};
use crate::position;

verus! {

/// The hash of a position, which says nothing of the two clocks.
pub open spec fn hash(position: Position) -> u64 {
    rules::zobrist(position.board, position.turn, position.castling_rights, position.ep_square)
}

/// The hash of a position, ignoring the halfmove clock and move number.
pub fn hash_of(position: &Position) -> (key: u64)
    ensures
        key == hash(*position),
{
    zobrist_hash(&Seat::sit(*position))
}

/// Whether the last of `keys` also stands `back` places before it, with the same
/// player to move and only reversible moves in between.
pub open spec fn stood(keys: Seq<u64>, halfmoves: int, back: int) -> bool {
    &&& 2 <= back <= halfmoves
    &&& back % 2 == 0
    &&& back < keys.len()
    &&& keys[keys.len() - 1 - back] == keys.last()
}

/// Whether the last of `keys` appeared earlier, since the last irreversible
/// move.
pub open spec fn recurs(keys: Seq<u64>, halfmoves: int) -> bool {
    exists|back: int| stood(keys, halfmoves, back)
}

/// Whether the last key in `keys` appeared earlier, searching back only as far
/// as the last irreversible move.
///
/// Positions with the same side to move are two plies apart, so only every
/// other entry can possibly match.
pub fn repeats(keys: &[u64], halfmoves: u32) -> (found: bool)
    ensures
        found == recurs(keys@, halfmoves as int),
{
    if keys.len() == 0 {
        return false;
    }
    let current: u64 = keys[keys.len() - 1];
    let mut index: usize = keys.len() - 1;
    let mut left: u32 = halfmoves;
    while left >= 2 && index >= 2
        invariant
            0 < keys.len(),
            index < keys.len(),
            left <= halfmoves,
            keys.len() - 1 - index == halfmoves - left,
            (halfmoves - left) % 2 == 0,
            current == keys@.last(),
            forall|back: int| back <= halfmoves - left ==> !stood(keys@, halfmoves as int, back),
        decreases left,
    {
        index -= 2;
        left -= 2;
        if keys[index] == current {
            proof {
                assert(stood(keys@, halfmoves as int, halfmoves - left));
            }
            return true;
        }
        proof {
            assert forall|back: int| back <= halfmoves - left implies !stood(
                keys@,
                halfmoves as int,
                back,
            ) by {
                if back > halfmoves - left - 2 && stood(keys@, halfmoves as int, back) {
                    assert(back == halfmoves - left);
                }
            }
        }
    }
    proof {
        assert forall|back: int| !stood(keys@, halfmoves as int, back) by {
            if back > halfmoves - left && stood(keys@, halfmoves as int, back) {
                assert(back >= halfmoves - left + 2);
            }
        }
    }
    false
}

/// A game in progress: the current position and every position that led to it.
#[derive(Clone, Debug)]
pub struct Game {
    position: Position,
    /// Hash of every position in the game so far, with the current position
    /// last. Never empty.
    keys: Vec<u64>,
}

/// What reading a game from a FEN comes to: the position to play from, or the
/// error.
pub open spec fn fen_outcome(fen: Seq<char>) -> Result<Position, Refusal> {
    match rules::fen_reading(fen) {
        Err(message) => Err(Refusal::Fen(message)),
        Ok(written) => match rules::playable(written) {
            Err(message) => Err(Refusal::Illegal(message)),
            Ok(position) => Ok(position),
        },
    }
}

/// What a text comes to as a move in a position: the move, or the error.
pub open spec fn uci_outcome(position: Position, text: Seq<char>) -> Result<Move, Refusal> {
    match rules::uci_reading(text) {
        None => Err(Refusal::UnknownMove),
        Some(uci) => match rules::uci_move(position, uci) {
            None => Err(Refusal::IllegalMove),
            Some(m) => Ok(m),
        },
    }
}

impl Game {
    /// The current position.
    pub closed spec fn current(self) -> Position {
        self.position
    }

    /// The hash of every position so far, current last.
    pub closed spec fn trail(self) -> Seq<u64> {
        self.keys@
    }

    /// The history ends with the current position.
    pub open spec fn wf(self) -> bool {
        &&& self.trail().len() > 0
        &&& self.trail().last() == hash(self.current())
    }

    /// Whether the current position has occurred before, with only reversible
    /// moves since.
    pub open spec fn repeated(self) -> bool {
        recurs(self.trail(), self.current().halfmoves as int)
    }

    /// Whether the game is drawn by the fifty-move rule, dead material or
    /// repetition.
    pub open spec fn drawn(self) -> bool {
        self.current().halfmoves >= 100 || self.current().is_dead() || self.repeated()
    }

    /// A game at the standard starting position.
    pub fn new() -> (game: Game)
        ensures
            game.wf(),
            game.current() == position::starting(),
            game.trail() == seq![hash(position::starting())],
    {
        Game::from_position(Position::start())
    }

    /// A game starting from an arbitrary position, with no history behind it.
    pub fn from_position(position: Position) -> (game: Game)
        ensures
            game.wf(),
            game.current() == position,
            game.trail() == seq![hash(position)],
    {
        let keys: Vec<u64> = vec![hash_of(&position)];
        proof {
            assert(keys@ =~= seq![hash(position)]);
        }
        Game { position, keys }
    }

    /// Parse a position from FEN and start a game there.
    pub fn from_fen(fen: &str) -> (read: Result<Game, SetupError>)
        ensures
            read matches Ok(game) ==> game.wf() && fen_outcome(fen@) == Ok::<Position, Refusal>(
                game.current(),
            ) && game.trail() == seq![hash(game.current())],
            read matches Err(error) ==> fen_outcome(fen@) == Err::<Position, Refusal>(error@),
    {
        match parse_fen(fen) {
            Err(message) => Err(SetupError::Fen(message)),
            Ok(written) => match set_up(&written) {
                Err(message) => Err(SetupError::Illegal(message)),
                Ok(position) => Ok(Game::from_position(position)),
            },
        }
    }

    /// The current position.
    pub fn position(&self) -> (position: &Position)
        ensures
            *position == self.current(),
    {
        &self.position
    }

    /// The hash of every position so far, current last.
    pub fn keys(&self) -> (keys: &[u64])
        ensures
            keys@ == self.trail(),
    {
        self.keys.as_slice()
    }

    /// The current position's hash.
    pub fn key(&self) -> (key: u64)
        requires
            self.wf(),
        ensures
            key == hash(self.current()),
    {
        self.keys[self.keys.len() - 1]
    }

    /// The current position in FEN.
    pub fn fen(&self) -> (text: String)
        ensures
            text@ == rules::fen_text(self.current()),
    {
        write_fen(&self.position)
    }

    /// Play a legal move. A capture or a pawn move wipes the slate: nothing that
    /// came before it counts as a repetition.
    pub fn play(&mut self, m: Move)
        requires
            old(self).wf(),
            rules::legal(old(self).current()).contains(m),
            m.on_board(),
        ensures
            final(self).wf(),
            final(self).current() == rules::after(old(self).current(), m),
            final(self).trail() == old(self).trail().push(hash(final(self).current())),
            final(self).current().turn == old(self).current().turn.opposite(),
            m.is_zeroing() ==> !final(self).repeated(),
    {
        let reached = rules::play(&Seat::sit(self.position), m);
        self.position = *reached.position();
        let key: u64 = zobrist_hash(&reached);
        self.keys.push(key);
    }

    /// Play a move if it is legal, and say whether it was.
    pub fn try_play(&mut self, m: Move) -> (played: bool)
        requires
            old(self).wf(),
        ensures
            final(self).wf(),
            played == rules::legal(old(self).current()).contains(m),
            !played ==> *final(self) == *old(self),
            played ==> {
                &&& final(self).current() == rules::after(old(self).current(), m)
                &&& final(self).trail() == old(self).trail().push(hash(final(self).current()))
            },
    {
        if self.position.is_legal(m) {
            self.play(m);
            true
        } else {
            false
        }
    }

    /// Play a move written in the long algebraic notation UCI uses, like
    /// `e2e4` or `e7e8q`. A legal move as the engine writes it is never refused.
    pub fn play_uci(&mut self, text: &str) -> (played: Result<Move, SetupError>)
        requires
            old(self).wf(),
        ensures
            final(self).wf(),
            played matches Err(error) ==> {
                &&& uci_outcome(old(self).current(), text@) == Err::<Move, Refusal>(error@)
                &&& *final(self) == *old(self)
            },
            played matches Ok(m) ==> {
                &&& uci_outcome(old(self).current(), text@) == Ok::<Move, Refusal>(m)
                &&& rules::legal(old(self).current()).contains(m)
                &&& m.on_board()
                &&& exists|uci: rules::UciMove|
                    rules::uci_reading(text@) == Some(uci) && #[trigger] rules::stands_for(uci, m)
                &&& final(self).current() == rules::after(old(self).current(), m)
                &&& final(self).trail() == old(self).trail().push(hash(final(self).current()))
                &&& m.is_zeroing() ==> !final(self).repeated()
            },
            forall|m: Move| #[trigger]
                rules::legal(old(self).current()).contains(m) && m.on_board() && text@
                    == rules::uci_writing(rules::standard(m)) ==> played is Ok,
    {
        proof {
            assert forall|m: Move| #[trigger]
                rules::legal(self.position).contains(m) && m.on_board() && text@
                    == rules::uci_writing(rules::standard(m)) implies rules::uci_reading(text@)
                == Some(rules::standard(m)) && rules::stands_for(rules::standard(m), m) by {
                rules::law_a_written_move_is_understood(m);
            }
        }
        match parse_uci(text) {
            None => Err(SetupError::UnknownMove),
            Some(uci) => {
                match find_uci(&self.position, uci) {
                    None => Err(SetupError::IllegalMove),
                    Some(m) => {
                        self.play(m);
                        Ok(m)
                    },
                }
            },
        }
    }

    /// Whether the current position has occurred before in this game.
    ///
    /// One earlier occurrence is enough to matter: a line that can repeat once
    /// can repeat three times, and the engine wants no part of that.
    pub fn is_repetition(&self) -> (repeated: bool)
        ensures
            repeated == self.repeated(),
    {
        repeats(self.keys.as_slice(), self.position.halfmoves)
    }

    /// Whether the game is drawn by a rule that does not need move generation:
    /// repetition, the fifty-move rule, or dead material.
    pub fn is_drawn_by_rule(&self) -> (drawn: bool)
        ensures
            drawn == self.drawn(),
    {
        self.position.halfmoves >= 100 || self.position.is_insufficient_material()
            || self.is_repetition()
    }
}

impl Default for Game {
    fn default() -> (game: Game)
        ensures
            game.wf(),
            game.current() == position::starting(),
            game.trail() == seq![hash(position::starting())],
    {
        Game::new()
    }
}

/// What stands on a square in a diagram: a capital for white, a small letter for
/// black, a dot for nothing.
pub open spec fn square_letter(position: Position, s: int) -> char {
    if !position.board.taken(s) {
        '.'
    } else if bits::on(position.board.white, s) {
        position.board.role_on(s).capital()
    } else {
        position.board.role_on(s).letter()
    }
}

/// The first `files` squares of a rank of the diagram, each after a space.
pub open spec fn squares_drawn(position: Position, rank: int, files: nat) -> Seq<char>
    decreases files,
{
    if files == 0 {
        seq![]
    } else {
        squares_drawn(position, rank, (files - 1) as nat) + seq![
            ' ',
            square_letter(position, 8 * rank + files - 1),
        ]
    }
}

/// A rank of the diagram, after its number.
pub open spec fn row(position: Position, rank: int) -> Seq<char> {
    seq![('1' as int + rank) as char] + squares_drawn(position, rank, 8)
}

/// The letters below the diagram.
pub open spec fn file_letters() -> Seq<char> {
    "  a b c d e f g h"@
}

/// The top `ranks` ranks of the diagram.
pub open spec fn ranks_drawn(position: Position, ranks: nat) -> Seq<char>
    decreases ranks,
{
    if ranks == 0 {
        seq![]
    } else {
        ranks_drawn(position, (ranks - 1) as nat) + row(position, 8 - ranks) + seq!['\n']
    }
}

/// A position as an ASCII diagram.
pub open spec fn drawing(position: Position) -> Seq<char> {
    ranks_drawn(position, 8) + file_letters()
}

/// Renders a rank of a position, after its number.
pub fn rank_row(position: &Position, rank: u8) -> (text: String)
    requires
        rank < 8,
    ensures
        text@ == row(*position, rank as int),
{
    let mut out = String::new();
    out.push((49u8 + rank) as char);
    let mut file: u8 = 0;
    proof {
        assert(out@ =~= seq![('1' as int + rank) as char] + squares_drawn(
            *position,
            rank as int,
            0,
        ));
    }
    while file < 8
        invariant
            file <= 8,
            rank < 8,
            out@ == seq![('1' as int + rank) as char] + squares_drawn(
                *position,
                rank as int,
                file as nat,
            ),
        decreases 8 - file,
    {
        let square: u8 = 8 * rank + file;
        out.push(' ');
        let letter = match position.board.piece_at(square) {
            Some(piece) => match piece.color {
                Color::White => piece.role.upper_char(),
                Color::Black => piece.role.char(),
            },
            None => '.',
        };
        out.push(letter);
        file += 1;
        proof {
            assert(letter == square_letter(*position, square as int));
            assert(out@ =~= seq![('1' as int + rank) as char] + squares_drawn(
                *position,
                rank as int,
                file as nat,
            ));
        }
    }
    out
}

/// Render a position as an ASCII diagram, white at the bottom.
pub fn diagram(position: &Position) -> (text: String)
    ensures
        text@ == drawing(*position),
{
    let mut out = String::new();
    let mut ranks: u8 = 0;
    proof {
        assert(out@ =~= seq![]);
    }
    while ranks < 8
        invariant
            ranks <= 8,
            out@ == ranks_drawn(*position, ranks as nat),
        decreases 8 - ranks,
    {
        out.append(rank_row(position, 7 - ranks).as_str());
        out.push('\n');
        ranks += 1;
        proof {
            assert(out@ =~= ranks_drawn(*position, ranks as nat));
        }
    }
    out.append("  a b c d e f g h");
    out
}

/// Something went wrong turning text into a position or a move.
#[derive(Clone, Debug, PartialEq, Eq)]
pub enum SetupError {
    /// The FEN could not be parsed.
    Fen(String),
    /// The FEN parsed but does not describe a legal chess position.
    Illegal(String),
    /// The move is not legal in the current position.
    IllegalMove,
    /// The text is not a move in long algebraic notation.
    UnknownMove,
}

/// A [`SetupError`] as a mathematical value.
pub ghost enum Refusal {
    Fen(Seq<char>),
    Illegal(Seq<char>),
    IllegalMove,
    UnknownMove,
}

impl Refusal {
    /// The error in words.
    pub open spec fn text(self) -> Seq<char> {
        match self {
            Refusal::Fen(message) => "invalid FEN: "@ + message,
            Refusal::Illegal(message) => "illegal position: "@ + message,
            Refusal::IllegalMove => "illegal move"@,
            Refusal::UnknownMove => "could not parse move"@,
        }
    }
}

impl View for SetupError {
    type V = Refusal;

    open spec fn view(&self) -> Refusal {
        match self {
            SetupError::Fen(message) => Refusal::Fen(message@),
            SetupError::Illegal(message) => Refusal::Illegal(message@),
            SetupError::IllegalMove => Refusal::IllegalMove,
            SetupError::UnknownMove => Refusal::UnknownMove,
        }
    }
}

impl SetupError {
    /// The error in words.
    pub fn message(&self) -> (text: String)
        ensures
            text@ == self@.text(),
    {
        match self {
            SetupError::Fen(message) => "invalid FEN: ".to_owned().concat(message.as_str()),
            SetupError::Illegal(message) => "illegal position: ".to_owned().concat(message.as_str()),
            SetupError::IllegalMove => "illegal move".to_owned(),
            SetupError::UnknownMove => "could not parse move".to_owned(),
        }
    }
}

/// Only the keys that the clock reaches back to matter for a repetition: two
/// histories that agree there agree on it.
pub proof fn law_only_the_reversible_past_matters(
    trail: Seq<u64>,
    other: Seq<u64>,
    halfmoves: int,
)
    requires
        trail.len() > halfmoves >= 0,
        other.len() > halfmoves,
        forall|back: int|
            0 <= back <= halfmoves ==> #[trigger] trail[trail.len() - 1 - back]
                == other[other.len() - 1 - back],
    ensures
        recurs(trail, halfmoves) == recurs(other, halfmoves),
{
    assert(trail[trail.len() - 1 - 0] == other[other.len() - 1 - 0]);
    if recurs(trail, halfmoves) {
        let back = choose|back: int| stood(trail, halfmoves, back);
        assert(trail[trail.len() - 1 - back] == other[other.len() - 1 - back]);
        assert(stood(other, halfmoves, back));
    }
    if recurs(other, halfmoves) {
        let back = choose|back: int| stood(other, halfmoves, back);
        assert(trail[trail.len() - 1 - back] == other[other.len() - 1 - back]);
        assert(stood(trail, halfmoves, back));
    }
}

/// A position has occurred before just where its key stands an even number of plies
/// back, with no irreversible move since.
pub proof fn law_a_repetition_is_an_earlier_key(keys: Seq<u64>, halfmoves: int)
    ensures
        recurs(keys, halfmoves) <==> exists|i: int|
            {
                &&& 0 <= i <= keys.len() - 3
                &&& #[trigger] keys[i] == keys[keys.len() - 1]
                &&& (keys.len() - 1 - i) % 2 == 0
                &&& keys.len() - 1 - i <= halfmoves
            },
{
    if recurs(keys, halfmoves) {
        let back = choose|back: int| stood(keys, halfmoves, back);
        assert(keys[keys.len() - 1 - back] == keys[keys.len() - 1]);
    }
    if exists|i: int|
        {
            &&& 0 <= i <= keys.len() - 3
            &&& #[trigger] keys[i] == keys[keys.len() - 1]
            &&& (keys.len() - 1 - i) % 2 == 0
            &&& keys.len() - 1 - i <= halfmoves
        } {
        let i = choose|i: int|
            {
                &&& 0 <= i <= keys.len() - 3
                &&& #[trigger] keys[i] == keys[keys.len() - 1]
                &&& (keys.len() - 1 - i) % 2 == 0
                &&& keys.len() - 1 - i <= halfmoves
            };
        assert(stood(keys, halfmoves, keys.len() - 1 - i));
    }
}

/// Going back and forth repeats a position: four reversible plies that lead back to
/// it make it one that has occurred before.
pub proof fn law_shuffling_is_a_repetition(
    trail: Seq<u64>,
    away: u64,
    reply: u64,
    back: u64,
    halfmoves: int,
)
    requires
        trail.len() > 0,
        halfmoves >= 4,
    ensures
        recurs(trail.push(away).push(reply).push(back).push(trail.last()), halfmoves),
{
    let keys = trail.push(away).push(reply).push(back).push(trail.last());
    assert(keys[keys.len() - 1 - 4] == trail.last());
    assert(stood(keys, halfmoves, 4));
}

/// A game is drawn by rule after fifty moves without a capture or a pawn move, with
/// dead material, and by a repetition; and by nothing else.
pub proof fn law_what_draws_a_game(game: Game)
    ensures
        game.current().halfmoves >= 100 ==> game.drawn(),
        game.current().is_dead() ==> game.drawn(),
        recurs(game.trail(), game.current().halfmoves as int) ==> game.drawn(),
        game.drawn() && game.current().halfmoves < 100 && !game.current().is_dead() ==> recurs(
            game.trail(),
            game.current().halfmoves as int,
        ),
{
}

/// A rank of the diagram is its number and then, each after a blank, what stands on
/// its squares from the first file to the last.
pub proof fn law_a_rank_is_drawn_square_by_square(position: Position, rank: int, file: int)
    requires
        0 <= rank < 8,
        0 <= file < 8,
    ensures
        row(position, rank).len() == 17,
        row(position, rank)[0] as int == '1' as int + rank,
        row(position, rank)[2 * file + 1] == ' ',
        row(position, rank)[2 * file + 2] == square_letter(position, 8 * rank + file),
{
    lemma_squares_drawn(position, rank, 8, file);
}

proof fn lemma_squares_drawn(position: Position, rank: int, files: nat, f: int)
    ensures
        squares_drawn(position, rank, files).len() == 2 * files,
        0 <= f < files ==> squares_drawn(position, rank, files)[2 * f] == ' ' && squares_drawn(
            position,
            rank,
            files,
        )[2 * f + 1] == square_letter(position, 8 * rank + f),
    decreases files,
{
    if files > 0 {
        lemma_squares_drawn(position, rank, (files - 1) as nat, f);
    }
}

/// A square of the diagram shows a dot just where nothing stands, and else the
/// letter that UCI has for the role: a capital for white, a small one for black.
pub proof fn law_a_square_shows_its_piece(position: Position, s: int)
    ensures
        square_letter(position, s) == '.' <==> !bits::on(position.board.white, s) && !bits::on(
            position.board.black,
            s,
        ),
        position.board.taken(s) ==> rules::role_named(square_letter(position, s)) == Some(
            position.board.role_on(s),
        ),
        bits::on(position.board.white, s) ==> 'A' <= square_letter(position, s) <= 'Z',
        bits::on(position.board.black, s) && !bits::on(position.board.white, s) ==> 'a'
            <= square_letter(position, s) <= 'z',
{
}

/// The diagram has white at the bottom: its lines are the ranks from the eighth down
/// to the first, and the letters of the files.
pub proof fn law_white_is_drawn_at_the_bottom(position: Position, line: int)
    requires
        0 <= line < 8,
    ensures
        drawing(position).len() == 144 + file_letters().len(),
        drawing(position).subrange(18 * line, 18 * line + 17) == row(position, 7 - line),
        drawing(position)[18 * line + 17] == '\n',
        drawing(position).skip(144) == file_letters(),
{
    lemma_ranks_drawn(position, 8);
    let ranks = ranks_drawn(position, 8);
    let all = drawing(position);
    assert(ranks.subrange(18 * line, 18 * line + 17) == row(position, 8 - (line + 1)));
    assert(all.subrange(18 * line, 18 * line + 17) =~= ranks.subrange(18 * line, 18 * line + 17));
    assert(all.skip(144) =~= file_letters());
}

proof fn lemma_ranks_drawn(position: Position, ranks: nat)
    requires
        ranks <= 8,
    ensures
        ranks_drawn(position, ranks).len() == 18 * ranks,
        forall|line: int|
            #![trigger ranks_drawn(position, ranks).subrange(18 * line, 18 * line + 17)]
            0 <= line < ranks ==> ranks_drawn(position, ranks).subrange(18 * line, 18 * line + 17)
                == row(position, 8 - (line + 1)) && ranks_drawn(position, ranks)[18 * line + 17]
                == '\n',
    decreases ranks,
{
    if ranks > 0 {
        lemma_ranks_drawn(position, (ranks - 1) as nat);
        law_a_rank_is_drawn_square_by_square(position, 8 - ranks, 0);
        let before = ranks_drawn(position, (ranks - 1) as nat);
        let now = ranks_drawn(position, ranks);
        assert forall|line: int|
            #![trigger now.subrange(18 * line, 18 * line + 17)]
            0 <= line < ranks implies now.subrange(18 * line, 18 * line + 17) == row(
            position,
            8 - (line + 1),
        ) && now[18 * line + 17] == '\n' by {
            if line < ranks - 1 {
                assert(now.subrange(18 * line, 18 * line + 17) =~= before.subrange(
                    18 * line,
                    18 * line + 17,
                ));
            } else {
                assert(now.subrange(18 * line, 18 * line + 17) =~= row(position, 8 - ranks));
            }
        }
    }
}

/// A move that cannot be read is told apart from one that cannot be played, and so is a
/// position; a reason from outside is passed on behind that.
pub proof fn law_a_refusal_says_why(position: Position, text: Seq<char>)
    ensures
        rules::uci_reading(text) is None ==> (uci_outcome(position, text) matches Err(refusal)
            && refusal.text() == "could not parse move"@),
        rules::uci_reading(text) matches Some(uci) ==> match rules::uci_move(position, uci) {
            Some(m) => uci_outcome(position, text) == Ok::<Move, Refusal>(m),
            None => uci_outcome(position, text) matches Err(refusal) && refusal.text()
                == "illegal move"@,
        },
        rules::fen_reading(text) matches Err(message) ==> (fen_outcome(text) matches Err(refusal)
            && refusal.text() == "invalid FEN: "@ + message),
        rules::fen_reading(text) matches Ok(written) ==> match rules::playable(written) {
            Ok(first) => fen_outcome(text) == Ok::<Position, Refusal>(first),
            Err(message) => fen_outcome(text) matches Err(refusal) && refusal.text()
                == "illegal position: "@ + message,
        },
{
}

} // verus!
