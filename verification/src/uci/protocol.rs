//! What a client can say, and what it means.

use vstd::prelude::*;

use crate::chess::{Move, Position};
use crate::clock::MILLISECOND;
use crate::eval;
use crate::game;
use crate::position;
use crate::rules;
use crate::search::limits;
use crate::search::limits::Limits;
use crate::search::options;
use crate::search::options::{OpponentModel, Options};
use crate::text;
use crate::{ENGINE_AUTHOR, ENGINE_NAME};

verus! {

/// Whether the command loop should keep going.
#[derive(Clone, Copy, PartialEq, Eq, Debug, Structural)]
pub enum Flow {
    /// Carry on reading commands.
    Continue,
    /// The client said `quit`.
    Quit,
}

/// What has to happen to the engine.
#[derive(Debug)]
pub enum Action {
    /// Nothing.
    Nothing,
    /// The settings have changed.
    Configure,
    /// The settings have changed, and the table with them.
    Resize,
    /// Everything learned is to be forgotten.
    Clear,
    /// A search is to be started.
    Search(Limits),
}

/// What a line of the client comes to.
#[derive(Debug)]
pub struct Reply {
    /// Whether the session goes on.
    pub flow: Flow,
    /// Whether a search that is running has to be stopped first, and its answer
    /// sent.
    pub finish: bool,
    /// What to send back.
    pub lines: Vec<String>,
    /// What to do then.
    pub action: Action,
}

/// Limits as mathematical values, with times in nanoseconds.
pub ghost struct Request {
    pub depth: Option<u32>,
    pub nodes: Option<u64>,
    pub movetime: Option<nat>,
    pub white_time: Option<nat>,
    pub black_time: Option<nat>,
    pub white_increment: Option<nat>,
    pub black_increment: Option<nat>,
    pub moves_to_go: Option<u32>,
    pub infinite: bool,
    pub search_moves: Seq<Move>,
    pub move_overhead: nat,
}

/// An [`Action`] as a mathematical value.
pub ghost enum Deed {
    Nothing,
    Configure,
    Resize,
    Clear,
    Search(Request),
}

/// A [`Reply`] as a mathematical value.
pub ghost struct Response {
    pub flow: Flow,
    pub finish: bool,
    pub lines: Seq<Seq<char>>,
    pub deed: Deed,
}

/// The state of a session as a mathematical value.
pub ghost struct Desk {
    pub options: Options,
    pub position: Position,
    pub trail: Seq<u64>,
    /// Slack for the trip through the GUI, in nanoseconds.
    pub overhead: nat,
    /// How long a search to a depth may take, in nanoseconds; nothing for as long
    /// as it likes.
    pub timeout: nat,
    pub debug: bool,
}

/// A session that has just begun.
pub open spec fn fresh(options: Options) -> Desk {
    Desk {
        options,
        position: position::starting(),
        trail: seq![game::hash(position::starting())],
        overhead: (30 * MILLISECOND) as nat,
        timeout: (5000 * MILLISECOND) as nat,
        debug: false,
    }
}

impl Limits {
    /// The limits as mathematical values.
    pub open spec fn request(self) -> Request {
        Request {
            depth: self.depth,
            nodes: self.nodes,
            movetime: limits::span_of(self.movetime),
            white_time: limits::span_of(self.white_time),
            black_time: limits::span_of(self.black_time),
            white_increment: limits::span_of(self.white_increment),
            black_increment: limits::span_of(self.black_increment),
            moves_to_go: self.moves_to_go,
            infinite: self.infinite,
            search_moves: self.search_moves@,
            move_overhead: self.move_overhead.total(),
        }
    }
}

impl Action {
    /// The action as a mathematical value.
    pub open spec fn deed(self) -> Deed {
        match self {
            Action::Nothing => Deed::Nothing,
            Action::Configure => Deed::Configure,
            Action::Resize => Deed::Resize,
            Action::Clear => Deed::Clear,
            Action::Search(limits) => Deed::Search(limits.request()),
        }
    }
}

impl Reply {
    /// The reply as a mathematical value.
    pub open spec fn response(self) -> Response {
        Response {
            flow: self.flow,
            finish: self.finish,
            lines: text::views(self.lines@),
            deed: self.action.deed(),
        }
    }
}

/// A reply that only says something.
pub open spec fn saying(lines: Seq<Seq<char>>) -> Response {
    Response { flow: Flow::Continue, finish: false, lines, deed: Deed::Nothing }
}

/// A reply that ends a search, says something, and does something.
pub open spec fn doing(lines: Seq<Seq<char>>, deed: Deed) -> Response {
    Response { flow: Flow::Continue, finish: true, lines, deed }
}

/// Whether a word starts a command we know, used to skip the junk the protocol
/// says we must tolerate ahead of one.
pub open spec fn commands(word: Seq<char>) -> bool {
    word == "uci"@ || word == "isready"@ || word == "debug"@ || word == "ucinewgame"@ || word
        == "setoption"@ || word == "position"@ || word == "go"@ || word == "stop"@ || word
        == "ponderhit"@ || word == "quit"@ || word == "d"@ || word == "board"@ || word == "eval"@
        || word == "perft"@
}

/// Where the first command stands among words.
pub open spec fn command_at(words: Seq<Seq<char>>, from: nat) -> Option<nat>
    decreases words.len() - from,
{
    if from >= words.len() {
        None
    } else if commands(words[from as int]) {
        Some(from)
    } else {
        command_at(words, from + 1)
    }
}

/// What words come to: those before the first command count for nothing.
pub open spec fn obeyed(desk: Desk, words: Seq<Seq<char>>) -> (Desk, Response) {
    match command_at(words, 0) {
        None => (desk, saying(seq![])),
        Some(at) => carried_out(desk, words[at as int], words.skip(at as int + 1)),
    }
}

/// What a line of the client comes to.
pub open spec fn handled(desk: Desk, line: Seq<char>) -> (Desk, Response) {
    obeyed(desk, text::words(line))
}

/// What a command and what follows it come to.
#[verifier::opaque]
pub open spec fn carried_out(desk: Desk, command: Seq<char>, rest: Seq<Seq<char>>) -> (
    Desk,
    Response,
) {
    if command == "uci"@ {
        (desk, saying(introduction(desk.options)))
    } else if command == "isready"@ {
        (desk, saying(seq!["readyok"@]))
    } else if command == "debug"@ {
        (Desk { debug: rest.len() == 0 || rest[0] != "off"@, ..desk }, saying(seq![]))
    } else if command == "ucinewgame"@ {
        (
            Desk {
                position: position::starting(),
                trail: seq![game::hash(position::starting())],
                ..desk
            },
            doing(seq![], Deed::Clear),
        )
    } else if command == "setoption"@ {
        option_set(desk, rest)
    } else if command == "position"@ {
        position_set(desk, rest)
    } else if command == "go"@ {
        (desk, doing(seq![], Deed::Search(requested(desk, rest))))
    } else if command == "stop"@ {
        (desk, doing(seq![], Deed::Nothing))
    } else if command == "quit"@ {
        (desk, Response { flow: Flow::Quit, ..saying(seq![]) })
    } else if command == "d"@ || command == "board"@ {
        (desk, saying(board_shown(desk.position)))
    } else if command == "eval"@ {
        (desk, saying(evaluation_shown(desk)))
    } else if command == "perft"@ {
        (desk, saying(seq![leaves_shown(desk.position, rest)]))
    } else {
        (desk, saying(seq![]))
    }
}

/// A setting of the `spin` type with its default.
pub open spec fn spin(name: Seq<char>, default: int, range: Seq<char>) -> Seq<char> {
    "option name "@ + name + " type spin default "@ + text::signed(default) + range
}

/// How the engine introduces itself: its name and author, and the options, with
/// what the session has them set to.
pub open spec fn introduction(options: Options) -> Seq<Seq<char>> {
    seq![
        "id name "@ + ENGINE_NAME@,
        "id author "@ + ENGINE_AUTHOR@,
        spin("Hash"@, options.hash_mb as int, " min 1 max 4096"@),
        "option name Opponent Model type combo default "@ + options.model.title() + " var "@
            + OpponentModel::Optimistic.title() + " var "@ + OpponentModel::Paranoid.title(),
        spin("Opponent Moves"@, options.opponent_moves as int, " min 1 max 64"@),
        spin("Own Moves"@, options.own_moves as int, " min 1 max 218"@),
        spin("Opportunity Bonus"@, options.opportunity_bonus as int, " min 0 max 30000"@),
        spin("Draw Penalty"@, options.draw_penalty as int, " min 0 max 1000"@),
        spin("Malice"@, options.malice as int, " min 0 max 100"@),
        "option name Move Overhead type spin default 30 min 0 max 5000"@,
        "option name Depth Timeout type spin default 5000 min 0 max 600000"@,
        "option name Clear Hash type button"@,
        "uciok"@,
    ]
}

/// A number brought into a range.
pub open spec fn clamped(n: int, least: int, most: int) -> int {
    if n < least {
        least
    } else if n > most {
        most
    } else {
        n
    }
}

/// A number brought into a range.
pub(crate) fn clamp_usize(n: usize, least: usize, most: usize) -> (clamped: usize)
    ensures
        clamped == self::clamped(n as int, least as int, most as int),
{
    if n < least {
        least
    } else if n > most {
        most
    } else {
        n
    }
}

/// A number brought into a range.
pub(crate) fn clamp_i32(n: i32, least: i32, most: i32) -> (clamped: i32)
    ensures
        clamped == self::clamped(n as int, least as int, most as int),
{
    if n < least {
        least
    } else if n > most {
        most
    } else {
        n
    }
}

/// What `setoption name <name with spaces> [value <value with spaces>]` comes to.
pub open spec fn option_set(desk: Desk, words: Seq<Seq<char>>) -> (Desk, Response) {
    let name_at = text::first(words, "name"@, 0);
    let value_at = text::first(words, "value"@, 0);
    let name_end = match value_at {
        Some(at) => at,
        None => words.len(),
    };
    match name_at {
        None => (desk, saying(seq![])),
        Some(at) if at + 1 > name_end => (desk, saying(seq![])),
        Some(at) => {
            let name = text::lowered(text::joined(words.subrange(at as int + 1, name_end as int)));
            let value = match value_at {
                Some(at) => text::joined(words.skip(at as int + 1)),
                None => seq![],
            };
            adjusted(desk, name, value)
        },
    }
}

/// A small number that a text writes.
pub open spec fn size_in(value: Seq<char>) -> Option<nat> {
    text::at_most(text::natural(value), usize::MAX as nat)
}

/// A whole number that a text writes.
pub open spec fn whole_in(value: Seq<char>) -> Option<int> {
    match text::integer(value) {
        Some(n) if i32::MIN <= n <= i32::MAX => Some(n),
        _ => None,
    }
}

/// A number of milliseconds that a text writes.
pub open spec fn millis_in(value: Seq<char>) -> Option<nat> {
    text::at_most(text::natural(value), u64::MAX as nat)
}

/// What setting an option to a value comes to. A value that is no value for the
/// option changes nothing, and one out of range is brought into it.
pub open spec fn adjusted(desk: Desk, name: Seq<char>, value: Seq<char>) -> (Desk, Response) {
    let o = desk.options;
    if name == "hash"@ {
        match size_in(value) {
            Some(n) => (
                Desk { options: Options { hash_mb: clamped(n as int, 1, 4096) as usize, ..o }, ..desk },
                doing(seq![], Deed::Resize),
            ),
            None => (desk, doing(seq![], Deed::Nothing)),
        }
    } else if name == "opponent model"@ {
        match options::model_named(value) {
            Some(model) => (
                Desk { options: Options { model, ..o }, ..desk },
                doing(seq![], Deed::Configure),
            ),
            None => (
                desk,
                doing(seq!["info string "@ + options::unknown_model(value)], Deed::Nothing),
            ),
        }
    } else if name == "opponent moves"@ {
        match size_in(value) {
            Some(n) => (
                Desk {
                    options: Options { opponent_moves: clamped(n as int, 1, 64) as usize, ..o },
                    ..desk
                },
                doing(seq![], Deed::Configure),
            ),
            None => (desk, doing(seq![], Deed::Nothing)),
        }
    } else if name == "own moves"@ {
        match size_in(value) {
            Some(n) => (
                Desk {
                    options: Options { own_moves: clamped(n as int, 1, 218) as usize, ..o },
                    ..desk
                },
                doing(seq![], Deed::Configure),
            ),
            None => (desk, doing(seq![], Deed::Nothing)),
        }
    } else if name == "opportunity bonus"@ {
        match whole_in(value) {
            Some(n) => (
                Desk {
                    options: Options { opportunity_bonus: clamped(n, 0, 30_000) as i32, ..o },
                    ..desk
                },
                doing(seq![], Deed::Configure),
            ),
            None => (desk, doing(seq![], Deed::Nothing)),
        }
    } else if name == "draw penalty"@ {
        match whole_in(value) {
            Some(n) => (
                Desk { options: Options { draw_penalty: clamped(n, 0, 1000) as i32, ..o }, ..desk },
                doing(seq![], Deed::Configure),
            ),
            None => (desk, doing(seq![], Deed::Nothing)),
        }
    } else if name == "malice"@ {
        match whole_in(value) {
            Some(n) => (
                Desk { options: Options { malice: clamped(n, 0, 100) as i32, ..o }, ..desk },
                doing(seq![], Deed::Configure),
            ),
            None => (desk, doing(seq![], Deed::Nothing)),
        }
    } else if name == "depth timeout"@ {
        match millis_in(value) {
            Some(n) => (
                Desk { timeout: (clamped(n as int, 0, 600_000) * MILLISECOND) as nat, ..desk },
                doing(seq![], Deed::Nothing),
            ),
            None => (desk, doing(seq![], Deed::Nothing)),
        }
    } else if name == "move overhead"@ {
        match millis_in(value) {
            Some(n) => (
                Desk { overhead: (clamped(n as int, 0, 5_000) * MILLISECOND) as nat, ..desk },
                doing(seq![], Deed::Nothing),
            ),
            None => (desk, doing(seq![], Deed::Nothing)),
        }
    } else if name == "clear hash"@ {
        (desk, doing(seq![], Deed::Clear))
    } else {
        (desk, doing(seq![], Deed::Nothing))
    }
}

/// The position that the words before the moves set up; otherwise what there is
/// to say about it.
pub open spec fn set_up(words: Seq<Seq<char>>) -> Result<Position, Seq<Seq<char>>> {
    if words.len() > 0 && words[0] == "startpos"@ {
        Ok(position::starting())
    } else if words.len() > 0 && words[0] == "fen"@ {
        match game::fen_outcome(text::joined(words.skip(1))) {
            Ok(position) => Ok(position),
            Err(refusal) => Err(seq!["info string "@ + refusal.text()]),
        }
    } else {
        Err(seq![])
    }
}

/// Where the moves from `from` on lead; otherwise what there is to say about the
/// first that cannot be played.
pub open spec fn moves_played(
    position: Position,
    trail: Seq<u64>,
    words: Seq<Seq<char>>,
    from: nat,
) -> Result<(Position, Seq<u64>), Seq<Seq<char>>>
    decreases words.len() - from,
{
    if from >= words.len() {
        Ok((position, trail))
    } else {
        match game::uci_outcome(position, words[from as int]) {
            Ok(m) => {
                let after = rules::after(position, m);
                moves_played(after, trail.push(game::hash(after)), words, from + 1)
            },
            Err(refusal) => Err(
                seq!["info string "@ + words[from as int] + ": "@ + refusal.text()],
            ),
        }
    }
}

/// What `position [startpos | fen <fen>] [moves <move>...]` comes to. Where
/// anything is wrong with it the game stays as it was.
pub open spec fn position_set(desk: Desk, words: Seq<Seq<char>>) -> (Desk, Response) {
    let moves_at = text::first(words, "moves"@, 0);
    let setup = match moves_at {
        Some(at) => words.take(at as int),
        None => words,
    };
    match set_up(setup) {
        Err(lines) => (desk, doing(lines, Deed::Nothing)),
        Ok(position) => {
            let trail = seq![game::hash(position)];
            let played = match moves_at {
                Some(at) => moves_played(position, trail, words, at + 1),
                None => Ok((position, trail)),
            };
            match played {
                Err(lines) => (desk, doing(lines, Deed::Nothing)),
                Ok((position, trail)) => (
                    Desk { position, trail, ..desk },
                    doing(seq![], Deed::Nothing),
                ),
            }
        },
    }
}

/// The move of a position that a word stands for.
pub open spec fn denoted(position: Position, word: Seq<char>) -> Option<Move> {
    match rules::uci_reading(word) {
        Some(uci) => rules::uci_move(position, uci),
        None => None,
    }
}

/// The moves that the words from `from` on stand for, up to the first that is no
/// move.
pub open spec fn moves_among(position: Position, words: Seq<Seq<char>>, from: nat) -> Seq<Move>
    decreases words.len() - from,
{
    if from >= words.len() {
        seq![]
    } else {
        match denoted(position, words[from as int]) {
            Some(m) => seq![m] + moves_among(position, words, from + 1),
            None => seq![],
        }
    }
}

/// The number that a word writes, as a word after a keyword.
pub open spec fn number_at(words: Seq<Seq<char>>, at: nat) -> Option<u64> {
    if at >= words.len() {
        None
    } else {
        match millis_in(words[at as int]) {
            Some(n) => Some(n as u64),
            None => None,
        }
    }
}

/// A number of milliseconds in nanoseconds.
pub open spec fn in_nanos(millis: Option<u64>) -> Option<nat> {
    match millis {
        Some(n) => Some((n * MILLISECOND) as nat),
        None => None,
    }
}

/// The last 32 bits of a number.
pub open spec fn shortened(n: Option<u64>) -> Option<u32> {
    match n {
        Some(n) => Some(n as u32),
        None => None,
    }
}

/// What a keyword of `go` with its number adds to a request.
pub open spec fn bounded(r: Request, word: Seq<char>, value: Option<u64>) -> Request {
    if word == "depth"@ {
        Request { depth: shortened(value), ..r }
    } else if word == "nodes"@ {
        Request { nodes: value, ..r }
    } else if word == "movetime"@ {
        Request { movetime: in_nanos(value), ..r }
    } else if word == "wtime"@ {
        Request { white_time: in_nanos(value), ..r }
    } else if word == "btime"@ {
        Request { black_time: in_nanos(value), ..r }
    } else if word == "winc"@ {
        Request { white_increment: in_nanos(value), ..r }
    } else if word == "binc"@ {
        Request { black_increment: in_nanos(value), ..r }
    } else if word == "movestogo"@ {
        Request { moves_to_go: shortened(value), ..r }
    } else if word == "infinite"@ {
        Request { infinite: true, ..r }
    } else {
        r
    }
}

/// What the words of a `go` from `from` on add to a request. After `searchmoves`,
/// everything up to the next keyword is a move to restrict the search to.
pub open spec fn go_words(
    position: Position,
    words: Seq<Seq<char>>,
    from: nat,
    r: Request,
) -> Request
    decreases
            if from < words.len() {
                words.len() - from
            } else {
                0
            },
{
    if from >= words.len() {
        r
    } else if words[from as int] == "searchmoves"@ {
        let moves = moves_among(position, words, from + 1);
        go_words(
            position,
            words,
            from + 1 + moves.len(),
            Request { search_moves: r.search_moves + moves, ..r },
        )
    } else {
        go_words(
            position,
            words,
            from + 1,
            bounded(r, words[from as int], number_at(words, from + 1)),
        )
    }
}

/// Nothing asked for yet.
pub open spec fn open_request(overhead: nat) -> Request {
    Request {
        depth: None,
        nodes: None,
        movetime: None,
        white_time: None,
        black_time: None,
        white_increment: None,
        black_increment: None,
        moves_to_go: None,
        infinite: false,
        search_moves: seq![],
        move_overhead: overhead,
    }
}

/// Whether neither time nor nodes bound a request.
pub open spec fn unclocked(r: Request) -> bool {
    !r.infinite && r.nodes is None && r.movetime is None && r.white_time is None && r.black_time
        is None
}

/// What `go [searchmoves <move>...] [depth n] [nodes n] [movetime ms] ...` asks
/// for. With nothing to bound it, it means "think until told to stop"; and where
/// only a depth bounds it, the session's timeout does too.
pub open spec fn requested(desk: Desk, words: Seq<Seq<char>>) -> Request {
    let r = go_words(desk.position, words, 0, open_request(desk.overhead));
    if unclocked(r) && r.depth is None {
        Request { infinite: true, ..r }
    } else if unclocked(r) && desk.timeout > 0 {
        Request { movetime: Some(desk.timeout), ..r }
    } else {
        r
    }
}

/// The first `n` ranks of the board from the top.
pub open spec fn rows(position: Position, n: nat) -> Seq<Seq<char>> {
    Seq::new(n, |i: int| game::row(position, 7 - i))
}

/// The board, its FEN and its hash.
pub open spec fn board_shown(position: Position) -> Seq<Seq<char>> {
    rows(position, 8) + seq![
        game::file_letters(),
        "fen "@ + rules::fen_text(position),
        "key "@ + text::hex(game::hash(position) as nat, 16),
    ]
}

/// The static score of the position, for the player to move.
pub open spec fn evaluation_shown(desk: Desk) -> Seq<Seq<char>> {
    let victim = desk.position.turn;
    let sabotage = eval::evaluation(desk.position, victim, desk.options.weights);
    seq![
        "sabotage "@ + text::signed(sabotage) + " (from "@ + seq![victim.letter()]
            + "'s point of view; higher means closer to defeat)"@,
        "score cp "@ + text::signed(-sabotage),
    ]
}

/// The number of leaves at a depth.
pub open spec fn leaves_shown(position: Position, words: Seq<Seq<char>>) -> Seq<char> {
    if words.len() > 0 && text::at_most(text::natural(words[0]), u32::MAX as nat) is Some {
        "nodes "@ + text::decimal(
            position::leaves(position, text::natural(words[0])->0) % 0x1_0000_0000_0000_0000,
        )
    } else {
        "info string perft needs a depth"@
    }
}

} // verus!
