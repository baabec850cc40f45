//! What the command line offers besides UCI: analysing a position, playing
//! against the engine, and watching it lose.
//!
//! Reading and printing are left to the program; everything that is decided or
//! worded is here.

use vstd::prelude::*;
use vstd::string::*;

use crate::chess::{Color, Move, Position};
use crate::clock::{Duration, MILLISECOND, SECOND};
use crate::eval;
use crate::eval::evaluate_with;
use crate::game;
use crate::game::{diagram, Game, Refusal};
use crate::position::Outcome;
use crate::rules;
use crate::rules::{find_san, find_uci, parse_san, parse_uci, play, write_san, Seat};
use crate::search::engine::Engine;
use crate::search::limits;
use crate::search::limits::Limits;
use crate::search::options::{OpponentModel, Options};
use crate::search::root;
use crate::search::root::{SearchInfo, SearchResult};
use crate::text;
use crate::text::{ascii_lowercase, pad, push_number, push_signed, says, trim, trim_end};
use crate::uci::commands::{footprints, walk, walkable};
use crate::uci::laws;
use crate::uci::protocol;
use crate::uci::protocol::{clamp_i32, clamp_usize};

verus! {

/// The engine settings, shared by every command that runs a search.
#[derive(Clone, Copy, Debug, PartialEq, Eq, Structural)]
pub struct EngineArgs {
    /// What to assume the opponent is trying to do.
    pub model: OpponentModel,
    /// How badly the engine wants to lose, from 0 (plays to win) to 100.
    pub malice: i32,
    /// How many opponent replies to weigh at each of their turns.
    pub opponent_moves: usize,
    /// How many of its own moves to weigh close to the leaves.
    pub own_moves: usize,
    /// Credit, in centipawns, for a chance the opponent could decline. Set it
    /// high and the engine banks on being punished and stops trying.
    pub opportunity_bonus: i32,
    /// How much worse than an equal position a draw is considered to be.
    pub draw_penalty: i32,
    /// Transposition table size, in mebibytes.
    pub hash: usize,
}

/// How to search.
#[derive(Clone, Copy, Debug, PartialEq, Eq, Structural)]
pub struct SearchArgs {
    /// How many plies to search.
    pub depth: u32,
    /// Think for this many milliseconds per move instead of using a fixed depth.
    pub movetime: Option<u64>,
    /// The engine settings.
    pub engine: EngineArgs,
}

/// Where to start from.
#[derive(Clone, Debug)]
pub struct PositionArgs {
    /// Position to start from, in Forsyth-Edwards notation.
    pub fen: String,
    /// Moves to play from that position first, in UCI notation.
    pub moves: Vec<String>,
}

/// Who to play against.
#[derive(Clone, Copy, Debug, PartialEq, Eq, Structural)]
pub enum Rival {
    /// The same engine with malice turned off: an ordinary, weak chess engine.
    Normal,
    /// Another copy of the saboteur. Expect a long and generous game.
    Saboteur,
}

/// What a player at the keyboard wants.
#[derive(Clone, Debug)]
pub enum Entry {
    /// To stop.
    Quit,
    /// To play a move.
    Move(Move),
    /// Something that cannot be done, and what to say about it.
    Refused(String),
}

/// What happens next in a game against a person.
#[derive(Clone, Debug)]
pub enum Turn {
    /// Nothing: the game is over, and this is how it ended.
    Over(String),
    /// The person moves.
    Human,
    /// The engine moves.
    Engine,
}

impl EngineArgs {
    /// The settings brought into the ranges that they are advertised with.
    pub open spec fn settings(self) -> Options {
        Options {
            hash_mb: protocol::clamped(self.hash as int, 1, 4096) as usize,
            model: self.model,
            opponent_moves: protocol::clamped(self.opponent_moves as int, 1, 64) as usize,
            own_moves: protocol::clamped(self.own_moves as int, 1, 218) as usize,
            opportunity_bonus: protocol::clamped(self.opportunity_bonus as int, 0, 30_000) as i32,
            draw_penalty: protocol::clamped(self.draw_penalty as int, 0, 1000) as i32,
            malice: protocol::clamped(self.malice as int, 0, 100) as i32,
            ..Options::usual()
        }
    }

    /// The settings brought into the ranges that they are advertised with.
    pub fn options(&self) -> (options: Options)
        ensures
            options == self.settings(),
            options.in_range(),
            laws::as_advertised(options),
    {
        Options {
            hash_mb: clamp_usize(self.hash, 1, 4096),
            model: self.model,
            opponent_moves: clamp_usize(self.opponent_moves, 1, 64),
            own_moves: clamp_usize(self.own_moves, 1, 218),
            opportunity_bonus: clamp_i32(self.opportunity_bonus, 0, 30_000),
            draw_penalty: clamp_i32(self.draw_penalty, 0, 1000),
            malice: clamp_i32(self.malice, 0, 100),
            ..Options::default()
        }
    }
}

impl SearchArgs {
    /// Whether these are the limits of a search: a fixed time or else a fixed depth,
    /// and nothing besides.
    pub open spec fn bounds(self, limits: Limits) -> bool {
        match self.movetime {
            Some(millis) => {
                &&& limits::span_of(limits.movetime) == Some((millis * MILLISECOND) as nat)
                &&& (Limits { movetime: None, ..limits }).is_blank()
            },
            None => {
                &&& limits.depth == Some(
                    if self.depth < 1 {
                        1u32
                    } else {
                        self.depth
                    },
                )
                &&& (Limits { depth: None, ..limits }).is_blank()
            },
        }
    }

    /// The settings of the engine.
    pub fn options(&self) -> (options: Options)
        ensures
            options == self.engine.settings(),
            options.in_range(),
            laws::as_advertised(options),
    {
        self.engine.options()
    }

    /// A fixed time per move where one is given, else a fixed depth of at least
    /// one ply.
    pub fn limits(&self) -> (limits: Limits)
        ensures
            self.movetime matches Some(millis) ==> {
                &&& limits::span_of(limits.movetime) == Some(
                    (millis * MILLISECOND) as nat,
                )
                &&& (Limits { movetime: None, ..limits }).is_blank()
            },
            self.movetime is None ==> {
                &&& limits.depth == Some(
                    if self.depth < 1 {
                        1u32
                    } else {
                        self.depth
                    },
                )
                &&& (Limits { depth: None, ..limits }).is_blank()
            },
            self.bounds(limits),
    {
        match self.movetime {
            Some(millis) => Limits::movetime(Duration::from_millis(millis)),
            None => Limits::depth(
                if self.depth < 1 {
                    1
                } else {
                    self.depth
                },
            ),
        }
    }
}

/// The settings of the rival of a saboteur: the same, or those of an ordinary
/// engine.
pub open spec fn rival_settings(rival: Rival, options: Options) -> Options {
    match rival {
        Rival::Saboteur => options,
        Rival::Normal => Options { malice: 0, model: OpponentModel::Paranoid, ..options },
    }
}

/// The settings of the rival of a saboteur: the same, or those of an ordinary
/// engine.
pub fn rival_options(rival: Rival, options: Options) -> (rival_options: Options)
    ensures
        rival_options == rival_settings(rival, options),
        options.in_range() ==> rival_options.in_range(),
{
    match rival {
        Rival::Saboteur => options,
        Rival::Normal => Options { malice: 0, model: OpponentModel::Paranoid, ..options },
    }
}

/// Where the moves from `from` on lead; otherwise what there is to say about the
/// first that cannot be played.
pub open spec fn reached(
    position: Position,
    trail: Seq<u64>,
    words: Seq<Seq<char>>,
    from: nat,
) -> Result<(Position, Seq<u64>), Seq<char>>
    decreases words.len() - from,
{
    if from >= words.len() {
        Ok((position, trail))
    } else {
        match game::uci_outcome(position, words[from as int]) {
            Ok(m) => {
                let after = rules::after(position, m);
                reached(after, trail.push(game::hash(after)), words, from + 1)
            },
            Err(refusal) => Err(words[from as int] + ": "@ + refusal.text()),
        }
    }
}

impl PositionArgs {
    /// Where the game starts, or what is wrong with it.
    pub open spec fn opening(self) -> Result<(Position, Seq<u64>), Seq<char>> {
        match game::fen_outcome(self.fen@) {
            Err(refusal) => Err(refusal.text()),
            Ok(position) => reached(
                position,
                seq![game::hash(position)],
                text::views(self.moves@),
                0,
            ),
        }
    }

    /// The game to start from.
    pub fn game(&self) -> (game: Result<Game, String>)
        ensures
            game matches Ok(game) ==> game.wf() && self.opening() == Ok::<
                (Position, Seq<u64>),
                Seq<char>,
            >((game.current(), game.trail())),
            game matches Err(message) ==> self.opening() == Err::<(Position, Seq<u64>), Seq<char>>(
                message@,
            ),
    {
        let mut game = match Game::from_fen(self.fen.as_str()) {
            Ok(game) => game,
            Err(error) => return Err(error.message()),
        };
        let ghost words = text::views(self.moves@);
        let ghost goal = self.opening();
        let mut index: usize = 0;
        while index < self.moves.len()
            invariant
                index <= self.moves.len(),
                words == text::views(self.moves@),
                game.wf(),
                goal == self.opening(),
                goal == reached(game.current(), game.trail(), words, index as nat),
            decreases self.moves.len() - index,
        {
            let word = &self.moves[index];
            match game.play_uci(word.as_str()) {
                Ok(m) => {},
                Err(error) => {
                    let mut message = word.clone();
                    message.append(": ");
                    message.append(error.message().as_str());
                    return Err(message);
                },
            }
            index += 1;
        }
        Ok(game)
    }
}

/// The move of a position that a text stands for, in UCI's notation or else in
/// the algebraic one.
pub open spec fn move_named(position: Position, name: Seq<char>) -> Option<Move> {
    match protocol::denoted(position, name) {
        Some(m) => Some(m),
        None => match rules::san_reading(name) {
            Some(san) => rules::san_move(position, san),
            None => None,
        },
    }
}

/// Accept either UCI (`e2e4`) or algebraic (`Nf3`) notation.
pub fn parse_move(position: &Position, name: &str) -> (found: Option<Move>)
    ensures
        found == move_named(*position, name@),
        found matches Some(m) ==> rules::legal(*position).contains(m) && m.on_board(),
{
    if let Some(uci) = parse_uci(name) {
        if let Some(m) = find_uci(position, uci) {
            return Some(m);
        }
    }
    match parse_san(name) {
        Some(san) => find_san(position, san),
        None => None,
    }
}

/// An [`Entry`] as a mathematical value.
pub ghost enum Intent {
    Quit,
    Move(Move),
    Refused(Seq<char>),
}

impl View for Entry {
    type V = Intent;

    open spec fn view(&self) -> Intent {
        match self {
            Entry::Quit => Intent::Quit,
            Entry::Move(m) => Intent::Move(*m),
            Entry::Refused(message) => Intent::Refused(message@),
        }
    }
}

/// What a line typed at the keyboard means, without the white space around it.
pub open spec fn meant(position: Position, line: Seq<char>) -> Intent {
    let name = text::trimmed_start(text::trimmed_end(line));
    if text::small_letters(name) == "quit"@ {
        Intent::Quit
    } else {
        match move_named(position, name) {
            Some(m) => Intent::Move(m),
            None => Intent::Refused("'"@ + name + "' is not a legal move here"@),
        }
    }
}

/// What a line typed at the keyboard means, without the white space around it.
pub fn read_entry(position: &Position, line: &str) -> (entry: Entry)
    ensures
        ({
            let name = text::trimmed_start(text::trimmed_end(line@));
            let found = move_named(*position, name);
            if text::small_letters(name) == "quit"@ {
                entry is Quit
            } else if found is Some {
                entry == Entry::Move(found->0)
            } else {
                entry matches Entry::Refused(message) && message@ == "'"@ + name
                    + "' is not a legal move here"@
            }
        }),
        entry matches Entry::Move(m) ==> rules::legal(*position).contains(m) && m.on_board(),
        entry@ == meant(*position, line@),
{
    let name = trim(line);
    if says(&ascii_lowercase(name.as_str()), "quit") {
        return Entry::Quit;
    }
    match parse_move(position, name.as_str()) {
        Some(m) => Entry::Move(m),
        None => {
            let mut message = "'".to_owned();
            message.append(name.as_str());
            message.append("' is not a legal move here");
            Entry::Refused(message)
        },
    }
}

/// The legal moves at the beginning of a line in algebraic notation, each followed
/// by a blank.
pub open spec fn sans(position: Position, line: Seq<Move>) -> Seq<char>
    decreases line.len(),
{
    if line.len() == 0 || !rules::legal(position).contains(line[0]) {
        seq![]
    } else {
        rules::san_text(position, line[0]).push(' ') + sans(
            rules::after(position, line[0]),
            line.drop_first(),
        )
    }
}

/// A human-readable line of moves, for progress reports.
pub fn describe_line(position: &Position, line: &Vec<Move>) -> (description: String)
    ensures
        description@ == text::trimmed_end(sans(*position, line@)),
{
    let mut here = *position;
    let mut out = String::new();
    let mut index: usize = 0;
    let mut on: bool = true;
    proof {
        assert(line@.skip(0) =~= line@);
        assert(out@ + sans(here, line@) =~= sans(*position, line@));
    }
    while on && index < line.len()
        invariant
            index <= line.len(),
            on ==> sans(*position, line@) == out@ + sans(here, line@.skip(index as int)),
            !on ==> sans(*position, line@) == out@,
        decreases
                line.len() - index,
                if on {
                    1int
                } else {
                    0int
                },
    {
        let m = line[index];
        let ghost rest = line@.skip(index as int);
        let ghost before = out@;
        proof {
            assert(rest[0] == m);
            assert(rest.drop_first() =~= line@.skip(index + 1));
        }
        if here.is_legal(m) {
            out.append(write_san(&here, m).as_str());
            out.push(' ');
            proof {
                let san = rules::san_text(here, m).push(' ');
                let tail = sans(rules::after(here, m), rest.drop_first());
                assert(before + (san + tail) =~= out@ + tail);
            }
            here = *play(&Seat::sit(here), m).position();
            index += 1;
        } else {
            on = false;
            proof {
                assert(before + Seq::<char>::empty() =~= before);
            }
        }
    }
    proof {
        if on {
            assert(line@.skip(index as int) =~= seq![]);
            assert(out@ + Seq::<char>::empty() =~= out@);
        }
    }
    trim_end(out.as_str())
}

/// How a game that is over has ended.
pub open spec fn known_text(outcome: Outcome) -> Seq<char> {
    match outcome {
        Outcome::Decisive { winner: Color::White } => "1-0: white wins"@,
        Outcome::Decisive { winner: Color::Black } => "0-1: black wins"@,
        Outcome::Draw => "1/2-1/2: a draw, which is a failure"@,
        Outcome::Unknown => "game in progress"@,
    }
}

/// How a game stands.
pub fn describe_outcome(position: &Position) -> (text: String)
    ensures
        text@ == known_text(position.verdict()),
{
    describe_known(position.outcome())
}

/// How a game stands, by its outcome.
pub fn describe_known(outcome: Outcome) -> (text: String)
    ensures
        text@ == known_text(outcome),
{
    match outcome {
        Outcome::Decisive { winner: Color::White } => "1-0: white wins".to_owned(),
        Outcome::Decisive { winner: Color::Black } => "0-1: black wins".to_owned(),
        Outcome::Draw => "1/2-1/2: a draw, which is a failure".to_owned(),
        Outcome::Unknown => "game in progress".to_owned(),
    }
}

/// How the game ended, or nothing if it has not.
pub open spec fn conclusion(game: Game) -> Option<Seq<char>> {
    if game.drawn() {
        Some("draw: nothing left to lose with"@)
    } else if game.current().verdict() == Outcome::Unknown {
        None
    } else {
        Some(known_text(game.current().verdict()))
    }
}

/// How the game ended, or `None` if it has not.
pub fn finished(game: &Game) -> (ending: Option<String>)
    ensures
        game.drawn() ==> (ending matches Some(text) && text@ == "draw: nothing left to lose with"@),
        !game.drawn() && game.current().verdict() == Outcome::Unknown ==> ending is None,
        !game.drawn() && game.current().verdict() != Outcome::Unknown ==> (ending matches Some(text)
            && text@ == known_text(game.current().verdict())),
        (match ending {
            Some(text) => Some(text@),
            None => None,
        }) == conclusion(*game),
{
    if game.is_drawn_by_rule() {
        return Some("draw: nothing left to lose with".to_owned());
    }
    let outcome = game.position().outcome();
    match outcome {
        Outcome::Unknown => None,
        _ => Some(describe_known(outcome)),
    }
}

/// A [`Turn`] as a mathematical value.
pub ghost enum Next {
    Over(Seq<char>),
    Human,
    Engine,
}

impl View for Turn {
    type V = Next;

    open spec fn view(&self) -> Next {
        match self {
            Turn::Over(text) => Next::Over(text@),
            Turn::Human => Next::Human,
            Turn::Engine => Next::Engine,
        }
    }
}

/// What happens next in a game against a person who plays `human`.
pub open spec fn coming(game: Game, human: Color) -> Next {
    match conclusion(game) {
        Some(text) => Next::Over(text),
        None => if game.current().turn == human {
            Next::Human
        } else {
            Next::Engine
        },
    }
}

/// What happens next in a game against a person who plays `human`.
pub fn next_turn(game: &Game, human: Color) -> (turn: Turn)
    ensures
        game.drawn() ==> (turn matches Turn::Over(text) && text@
            == "draw: nothing left to lose with"@),
        !game.drawn() && game.current().verdict() != Outcome::Unknown ==> (
        turn matches Turn::Over(text) && text@ == known_text(game.current().verdict())),
        !game.drawn() && game.current().verdict() == Outcome::Unknown ==> if game.current().turn
            == human {
            turn is Human
        } else {
            turn is Engine
        },
        turn@ == coming(*game, human),
{
    match finished(game) {
        Some(over) => Turn::Over(over),
        None => if is_turn_of(game, human) {
            Turn::Human
        } else {
            Turn::Engine
        },
    }
}

/// Whether it is a player's turn.
pub fn is_turn_of(game: &Game, color: Color) -> (turn: bool)
    ensures
        turn == (game.current().turn == color),
{
    game.position().turn == color
}

/// A time in seconds, with two decimals, to the nearest hundredth.
pub open spec fn seconds(nanos: nat) -> Seq<char> {
    let hundredths = (nanos + 5_000_000) / 10_000_000;
    text::decimal(hundredths / 100) + seq![
        '.',
        text::digit(hundredths as int / 10 % 10),
        text::digit(hundredths as int % 10),
    ]
}

/// A time in seconds, with two decimals.
pub fn format_seconds(elapsed: Duration) -> (text: String)
    ensures
        text@ == seconds(elapsed.total()),
{
    let hundredths: u128 = (elapsed.as_nanos() + 5_000_000) / 10_000_000;
    let mut out = String::new();
    push_number(&mut out, hundredths / 100);
    out.push('.');
    out.push((48u8 + (hundredths / 10 % 10) as u8) as char);
    out.push((48u8 + (hundredths % 10) as u8) as char);
    proof {
        assert(out@ =~= seconds(elapsed.total()));
    }
    out
}

/// What there is to say about a position before it is searched: the diagram, the
/// FEN and the static score.
pub open spec fn analysis_head(position: Position, options: Options) -> Seq<Seq<char>> {
    seq![
        game::drawing(position),
        "fen "@ + rules::fen_text(position),
        "static sabotage "@ + text::signed(
            eval::evaluation(position, position.turn, options.weights),
        ) + " ("@ + seq![position.turn.letter()] + " to move, higher is closer to defeat)"@,
        seq![],
    ]
}

/// What there is to say about a position before it is searched.
pub fn describe_position(game: &Game, options: &Options) -> (lines: Vec<String>)
    requires
        options.weights.fits(),
    ensures
        text::views(lines@) == analysis_head(game.current(), *options),
{
    let position = game.position();
    let victim = position.turn;
    let mut lines: Vec<String> = Vec::new();
    lines.push(diagram(position));
    lines.push("fen ".to_owned().concat(game.fen().as_str()));
    let mut line = "static sabotage ".to_owned();
    proof {
        eval::lemma_reach(*position, victim, options.weights);
    }
    push_signed(&mut line, evaluate_with(position, victim, &options.weights) as i64);
    line.append(" (");
    line.push(victim.char());
    line.append(" to move, higher is closer to defeat)");
    proof {
        assert(line@ =~= analysis_head(*position, *options)[2]);
    }
    lines.push(line);
    lines.push(String::new());
    proof {
        assert(lines@[3]@ =~= seq![]);
        assert(text::views(lines@) =~= analysis_head(*position, *options));
    }
    lines
}

/// A number in a column of some width.
fn column(n: u64, width: usize) -> (text: String)
    ensures
        text@ == text::padded(text::decimal(n as nat), width as nat),
{
    let mut out = String::new();
    push_number(&mut out, n as u128);
    proof {
        assert(out@ =~= text::decimal(n as nat));
    }
    pad(out, width)
}

/// A report on an iteration.
pub open spec fn progress_text(position: Position, info: SearchInfo) -> Seq<char> {
    "depth "@ + text::padded(text::decimal(info.depth as nat), 2) + "  score "@ + text::padded(
        info.score.text(),
        10,
    ) + "  nodes "@ + text::padded(text::decimal(info.nodes as nat), 9) + "  "@
        + text::trimmed_end(sans(position, info.pv@))
}

/// A report on an iteration.
pub fn describe_progress(position: &Position, info: &SearchInfo) -> (line: String)
    ensures
        line@ == progress_text(*position, *info),
{
    let mut line = "depth ".to_owned();
    line.append(column(info.depth as u64, 2).as_str());
    line.append("  score ");
    line.append(pad(info.score.to_text(), 10).as_str());
    line.append("  nodes ");
    line.append(column(info.nodes, 9).as_str());
    line.append("  ");
    line.append(describe_line(position, &info.pv).as_str());
    line
}

/// What a search has decided.
pub open spec fn decision_text(position: Position, result: SearchResult) -> Seq<char> {
    match result.best_move {
        Some(m) => "best "@ + rules::san_text(position, m) + "  (sabotage "@ + text::signed(
            result.sabotage as int,
        ) + ", "@ + text::decimal(result.nodes as nat) + " nodes in "@ + seconds(
            result.elapsed.total(),
        ) + "s)"@,
        None => "no legal moves: "@ + known_text(position.verdict()),
    }
}

/// What a search has decided.
pub fn describe_decision(position: &Position, result: &SearchResult) -> (line: String)
    requires
        result.best_move matches Some(m) ==> m.on_board(),
    ensures
        line@ == decision_text(*position, *result),
{
    match result.best_move {
        Some(m) => {
            let mut line = "best ".to_owned();
            line.append(write_san(position, m).as_str());
            line.append("  (sabotage ");
            push_signed(&mut line, result.sabotage as i64);
            line.append(", ");
            push_number(&mut line, result.nodes as u128);
            line.append(" nodes in ");
            line.append(format_seconds(result.elapsed).as_str());
            line.append("s)");
            line
        },
        None => "no legal moves: ".to_owned().concat(describe_outcome(position).as_str()),
    }
}

/// What the engine says when it moves in a game against a person.
pub open spec fn announcement(position: Position, m: Move, result: SearchResult) -> Seq<char> {
    "engine plays "@ + rules::san_text(position, m) + " (it rates itself at "@
        + result.score.text() + ")"@
}

/// What the engine says when it moves in a game against a person.
pub fn announce(position: &Position, m: Move, result: &SearchResult) -> (line: String)
    requires
        m.on_board(),
    ensures
        line@ == announcement(*position, m, *result),
{
    let mut line = "engine plays ".to_owned();
    line.append(write_san(position, m).as_str());
    line.append(" (it rates itself at ");
    line.append(result.score.to_text().as_str());
    line.append(")");
    line
}

/// A line of a game record with another move in algebraic notation, after the
/// move's number where white moves.
pub open spec fn with_move(line: Seq<char>, position: Position, m: Move) -> Seq<char> {
    (if position.turn == Color::White {
        line + text::decimal(position.fullmoves as nat) + ". "@
    } else {
        line
    }) + rules::san_text(position, m).push(' ')
}

/// A line of a game record with another move, and what of it is full: a line that has
/// become longer than 68 characters is, and leaves nothing.
pub open spec fn written_down(line: Seq<char>, position: Position, m: Move) -> (
    Seq<char>,
    Option<Seq<char>>,
) {
    let longer = with_move(line, position, m);
    if longer.len() > 68 {
        (seq![], Some(text::trimmed_end(longer)))
    } else {
        (longer, None)
    }
}

/// Adds a move to a line of a game record. A line that has become longer than 68
/// characters is handed out to be printed, and a new one begins.
pub fn write_down(line: &mut String, position: &Position, m: Move) -> (full: Option<String>)
    requires
        m.on_board(),
    ensures
        ({
            let longer = with_move(old(line)@, *position, m);
            if longer.len() > 68 {
                final(line)@.len() == 0 && (full matches Some(text) && text@ == text::trimmed_end(
                    longer,
                ))
            } else {
                final(line)@ == longer && full is None
            }
        }),
        written_down(old(line)@, *position, m) == (
            final(line)@,
            match full {
                Some(text) => Some(text@),
                None => None,
            },
        ),
{
    if position.turn == Color::White {
        push_number(line, position.fullmoves as u128);
        line.append(". ");
    }
    line.append(write_san(position, m).as_str());
    line.push(' ');
    proof {
        assert(line@ =~= with_move(old(line)@, *position, m));
    }
    if line.as_str().unicode_len() > 68 {
        let full = trim_end(line.as_str());
        *line = String::new();
        proof {
            assert(line@ =~= seq![]);
        }
        Some(full)
    } else {
        None
    }
}

/// What is left of a game record at its end, unless it is blank.
pub fn last_line(line: &str) -> (rest: Option<String>)
    ensures
        text::trimmed_start(text::trimmed_end(line@)).len() == 0 ==> rest is None,
        text::trimmed_start(text::trimmed_end(line@)).len() > 0 ==> (rest matches Some(text)
            && text@ == text::trimmed_end(line@)),
{
    if trim(line).as_str().unicode_len() == 0 {
        None
    } else {
        Some(trim_end(line))
    }
}

/// Whether a game between engines goes on: it is not over, and it is not too long.
pub open spec fn continues(game: Game, max_moves: int) -> bool {
    game.current().fullmoves <= max_moves && conclusion(game) is None
}

/// Whether a game between engines goes on: it is not over, and it is not too long.
pub fn goes_on(game: &Game, max_moves: u32) -> (on: bool)
    ensures
        on == (game.current().fullmoves <= max_moves && !game.drawn()
            && game.current().verdict() == Outcome::Unknown),
        on == continues(*game, max_moves as int),
{
    game.position().fullmoves <= max_moves && finished(game).is_none()
}

/// Nodes per second, to the nearest whole number, of at least a nanosecond.
pub open spec fn speed(nodes: nat, nanos: nat) -> nat {
    let time = if nanos == 0 {
        1
    } else {
        nanos
    };
    ((2 * nodes * SECOND / (time as int) + 1) / 2) as nat
}

/// How many nodes were counted, how long it took, and how fast that was.
pub open spec fn speed_text(nodes: nat, nanos: nat) -> Seq<char> {
    " in "@ + seconds(nanos) + "s ("@ + text::decimal(speed(nodes, nanos)) + " nodes/s)"@
}

/// How long it took to count so many nodes, and how fast that was.
pub fn describe_speed(nodes: u64, elapsed: Duration) -> (text: String)
    ensures
        text@ == speed_text(nodes as nat, elapsed.total()),
{
    let nanos: u128 = elapsed.as_nanos();
    let time: u128 = if nanos == 0 {
        1
    } else {
        nanos
    };
    proof {
        assert(0 <= 2 * nodes * SECOND <= 2 * u64::MAX * SECOND) by (nonlinear_arith)
            requires
                0 <= nodes <= u64::MAX,
        ;
        let twice = 2 * nodes * SECOND;
        vstd::arithmetic::div_mod::lemma_div_is_ordered_by_denominator(
            twice as int,
            1,
            time as int,
        );
    }
    let speed: u128 = (2 * nodes as u128 * SECOND / time + 1) / 2;
    let mut out = " in ".to_owned();
    out.append(format_seconds(elapsed).as_str());
    out.append("s (");
    push_number(&mut out, speed);
    out.append(" nodes/s)");
    out
}

/// What a step of a game between engines comes to.
#[derive(Clone, Debug)]
pub enum Step {
    /// There was no move to play.
    Stuck,
    /// A move was played; perhaps it filled a line of the record, to be printed.
    Played(Option<String>),
}

/// Whether a move, where there is one, was played in a game.
pub open spec fn played(best: Option<Move>, before: Game, after: Game) -> bool {
    match best {
        None => after == before,
        Some(m) => {
            &&& rules::legal(before.current()).contains(m)
            &&& after.current() == rules::after(before.current(), m)
            &&& after.trail() == before.trail().push(game::hash(after.current()))
        },
    }
}

/// Whether a move, where there is one, was written down in a line of a record.
pub open spec fn recorded(
    best: Option<Move>,
    position: Position,
    line: Seq<char>,
    new_line: Seq<char>,
    step: Step,
) -> bool {
    match best {
        None => step is Stuck && new_line == line,
        Some(m) => {
            let longer = with_move(line, position, m);
            if longer.len() > 68 {
                new_line.len() == 0 && (step matches Step::Played(full) && full is Some && full->0@
                    == text::trimmed_end(longer))
            } else {
                new_line == longer && (step matches Step::Played(full) && full is None)
            }
        },
    }
}

/// Lets an engine move in a game between engines, and writes the move down.
pub fn advance(game: &mut Game, engine: &mut Engine, limits: &Limits, line: &mut String) -> (step:
    Step)
    requires
        old(game).wf(),
        old(engine).wf(),
        old(engine).task().options.in_range(),
    ensures
        final(game).wf(),
        final(engine).wf(),
        final(engine).task().options == old(engine).task().options,
        final(engine).flag() is None,
        exists|result: SearchResult, reports: Seq<SearchInfo>| #[trigger]
            root::ended(
                *old(engine),
                *final(engine),
                old(game).current(),
                old(game).trail(),
                *limits,
                result,
                reports,
            ) && played(result.best_move, *old(game), *final(game)) && recorded(
                result.best_move,
                old(game).current(),
                old(line)@,
                final(line)@,
                step,
            ),
{
    let mut reports: Vec<SearchInfo> = Vec::new();
    let result = engine.think(game, limits, None, &mut reports);
    proof {
        assert(reports@.skip(0) =~= reports@);
    }
    match result.best_move {
        None => Step::Stuck,
        Some(m) => {
            let full = write_down(line, game.position(), m);
            game.play(m);
            Step::Played(full)
        },
    }
}

/// Lets the engine move in a game against a person, and says what it played.
pub fn reply(game: &mut Game, engine: &mut Engine, limits: &Limits) -> (said: Option<String>)
    requires
        old(game).wf(),
        old(engine).wf(),
        old(engine).task().options.in_range(),
    ensures
        final(game).wf(),
        final(engine).wf(),
        final(engine).task().options == old(engine).task().options,
        final(engine).flag() is None,
        exists|result: SearchResult, reports: Seq<SearchInfo>| #[trigger]
            root::ended(
                *old(engine),
                *final(engine),
                old(game).current(),
                old(game).trail(),
                *limits,
                result,
                reports,
            ) && played(result.best_move, *old(game), *final(game)) && (match result.best_move {
                None => said is None,
                Some(m) => said is Some && said->0@ == announcement(
                    old(game).current(),
                    m,
                    result,
                ),
            }),
{
    let mut reports: Vec<SearchInfo> = Vec::new();
    let result = engine.think(game, limits, None, &mut reports);
    proof {
        assert(reports@.skip(0) =~= reports@);
    }
    match result.best_move {
        None => None,
        Some(m) => {
            let said = announce(game.position(), m, &result);
            game.play(m);
            Some(said)
        },
    }
}

/// Whether a number is another one brought between two bounds: the number itself where
/// it lies between them, else the bound that it lies beyond.
pub open spec fn brought_between(n: int, given: int, least: int, most: int) -> bool {
    &&& least <= n <= most
    &&& n == given || n == least && given < least || n == most && given > most
}

/// Settings from the command line are taken as given, within their ranges; what cannot
/// be given there is as usual.
pub proof fn law_settings_are_taken_within_their_ranges(args: EngineArgs)
    ensures
        ({
            let options = args.settings();
            let usual = Options::usual();
            &&& options.model == args.model
            &&& brought_between(options.malice as int, args.malice as int, 0, 100)
            &&& brought_between(options.hash_mb as int, args.hash as int, 1, 4096)
            &&& brought_between(options.opponent_moves as int, args.opponent_moves as int, 1, 64)
            &&& brought_between(options.own_moves as int, args.own_moves as int, 1, 218)
            &&& brought_between(
                options.opportunity_bonus as int,
                args.opportunity_bonus as int,
                0,
                30_000,
            )
            &&& brought_between(options.draw_penalty as int, args.draw_penalty as int, 0, 1000)
            &&& options.weights == usual.weights
        }),
{
}

/// An ordinary rival of a saboteur leans all the way to winning, and expects the same of
/// its opponent; whatever else is set, the two share.
pub proof fn law_an_ordinary_rival_plays_to_win(options: Options)
    ensures
        rival_settings(Rival::Saboteur, options) == options,
        ({
            let rival = rival_settings(Rival::Normal, options);
            &&& rival.leaning() == -100
            &&& rival.model == OpponentModel::Paranoid
            &&& options == (Options { malice: options.malice, model: options.model, ..rival })
        }),
{
}

proof fn lemma_reached(first: Position, moves: Seq<Seq<char>>, n: nat)
    requires
        n <= moves.len(),
        walkable(first, moves, n),
    ensures
        reached(first, seq![game::hash(first)], moves, 0) == reached(
            walk(first, moves, n),
            footprints(first, moves, n),
            moves,
            n,
        ),
    decreases n,
{
    if n == 0 {
        assert(footprints(first, moves, 0) =~= seq![game::hash(first)]);
    } else {
        let before = (n - 1) as nat;
        assert(walkable(first, moves, before));
        lemma_reached(first, moves, before);
        assert(game::uci_outcome(walk(first, moves, before), moves[before as int]) is Ok);
        assert(footprints(first, moves, before).push(game::hash(walk(first, moves, n)))
            =~= footprints(first, moves, n));
    }
}

/// A game from the command line starts where its moves lead, and remembers the key of
/// every position on the way.
pub proof fn law_an_opening_keeps_its_history(args: PositionArgs, first: Position, i: nat)
    requires
        game::fen_outcome(args.fen@) == Ok::<Position, Refusal>(first),
        walkable(first, text::views(args.moves@), args.moves@.len()),
        i <= args.moves@.len(),
    ensures
        args.opening() matches Ok((position, trail)) && {
            let moves = text::views(args.moves@);
            &&& position == walk(first, moves, moves.len())
            &&& trail.len() == moves.len() + 1
            &&& trail[i as int] == game::hash(walk(first, moves, i))
        },
{
    let moves = text::views(args.moves@);
    lemma_reached(first, moves, moves.len());
}

/// An opening that cannot be read, or with a move that cannot be played, is refused with
/// the reason, and with the first such move.
pub proof fn law_a_bad_opening_is_refused(args: PositionArgs, n: nat, refusal: Refusal)
    ensures
        game::fen_outcome(args.fen@) == Err::<Position, Refusal>(refusal) ==> args.opening() == Err::<
            (Position, Seq<u64>),
            Seq<char>,
        >(refusal.text()),
        game::fen_outcome(args.fen@) matches Ok(first) ==> {
            let moves = text::views(args.moves@);
            n < moves.len() && walkable(first, moves, n) && game::uci_outcome(
                walk(first, moves, n),
                moves[n as int],
            ) == Err::<Move, Refusal>(refusal) ==> args.opening() == Err::<
                (Position, Seq<u64>),
                Seq<char>,
            >(moves[n as int] + ": "@ + refusal.text())
        },
{
    let moves = text::views(args.moves@);
    if let Ok(first) = game::fen_outcome(args.fen@) {
        if n < moves.len() && walkable(first, moves, n) {
            lemma_reached(first, moves, n);
        }
    }
}

/// Where a line of moves leads.
pub open spec fn end_of(position: Position, line: Seq<Move>) -> Position
    decreases line.len(),
{
    if line.len() == 0 {
        position
    } else {
        end_of(rules::after(position, line[0]), line.drop_first())
    }
}

/// Whether each move of a line can be played after the ones before it.
pub open spec fn playable(position: Position, line: Seq<Move>) -> bool
    decreases line.len(),
{
    line.len() > 0 ==> rules::legal(position).contains(line[0]) && playable(
        rules::after(position, line[0]),
        line.drop_first(),
    )
}

/// A line is told move by move: another move adds its name and a blank to what was told
/// before it, and one that cannot be played adds nothing, nor does anything after it.
pub proof fn law_a_line_is_told_while_it_can_be_played(
    position: Position,
    line: Seq<Move>,
    m: Move,
    rest: Seq<Move>,
)
    requires
        playable(position, line),
    ensures
        sans(position, seq![]) == Seq::<char>::empty(),
        rules::legal(end_of(position, line)).contains(m) ==> sans(position, line.push(m)) == sans(
            position,
            line,
        ) + rules::san_text(end_of(position, line), m).push(' '),
        !rules::legal(end_of(position, line)).contains(m) ==> sans(position, line.push(m) + rest)
            == sans(position, line),
    decreases line.len(),
{
    let end = end_of(position, line);
    if line.len() == 0 {
        assert(line =~= seq![]);
        assert(line.push(m)[0] == m);
        assert(line.push(m).drop_first() =~= seq![]);
        assert((line.push(m) + rest)[0] == m);
        if rules::legal(end).contains(m) {
            let san = rules::san_text(end, m).push(' ');
            assert(sans(rules::after(position, m), seq![]) == Seq::<char>::empty());
            assert(san + Seq::<char>::empty() =~= san);
            assert(Seq::<char>::empty() + san =~= san);
        }
    } else {
        let after = rules::after(position, line[0]);
        let tail = line.drop_first();
        law_a_line_is_told_while_it_can_be_played(after, tail, m, rest);
        assert(line.push(m).drop_first() =~= tail.push(m));
        assert((line.push(m) + rest).drop_first() =~= tail.push(m) + rest);
        assert((line.push(m) + rest)[0] == line[0]);
        if rules::legal(end).contains(m) {
            let head = rules::san_text(position, line[0]).push(' ');
            let san = rules::san_text(end, m).push(' ');
            assert(head + (sans(after, tail) + san) =~= (head + sans(after, tail)) + san);
        }
    }
}

/// The result of a game is told by its score: 1-0 where white has won, 0-1 where black
/// has, and halves for a draw.
pub proof fn law_an_ending_is_told_by_its_score(outcome: Outcome)
    ensures
        outcome matches Outcome::Decisive { winner } ==> {
            let white = if winner == Color::White {
                '1'
            } else {
                '0'
            };
            let black = if winner == Color::White {
                '0'
            } else {
                '1'
            };
            known_text(outcome).take(3) == seq![white, '-', black]
        },
        outcome is Draw ==> known_text(outcome).take(7) == seq!['1', '/', '2', '-', '1', '/', '2'],
        outcome is Unknown <==> known_text(outcome)[0] == 'g',
{
    reveal_strlit("1-0: white wins");
    reveal_strlit("0-1: black wins");
    reveal_strlit("1/2-1/2: a draw, which is a failure");
    reveal_strlit("game in progress");
    match outcome {
        Outcome::Decisive { winner: Color::White } => {
            assert(known_text(outcome).take(3) =~= seq!['1', '-', '0']);
        },
        Outcome::Decisive { winner: Color::Black } => {
            assert(known_text(outcome).take(3) =~= seq!['0', '-', '1']);
        },
        Outcome::Draw => {
            assert(known_text(outcome).take(7) =~= seq!['1', '/', '2', '-', '1', '/', '2']);
        },
        Outcome::Unknown => {},
    }
}

proof fn lemma_two_digits(n: nat)
    ensures
        n as int % 100 == 10 * (n as int / 10 % 10) + n as int % 10,
        0 <= n as int / 10 % 10 < 10,
        0 <= n as int % 10 < 10,
{
}

/// A time is told to the nearest hundredth of a second: the seconds before the point and
/// the hundredths, in two digits, after it.
pub proof fn law_a_time_is_told_to_the_nearest_hundredth(nanos: nat)
    ensures
        exists|hundredths: nat|
            {
                let shown = seconds(nanos);
                let n = shown.len() - 3;
                &&& -10_000_000 <= 2 * (nanos - 10_000_000 * hundredths) < 10_000_000
                &&& n > 0
                &&& text::natural(shown.take(n)) == Some(#[trigger] (hundredths / 100))
                &&& shown[n] == '.'
                &&& text::natural(shown.skip(n + 1)) == Some(hundredths % 100)
            },
{
    let hundredths = (nanos + 5_000_000) / 10_000_000;
    let shown = seconds(nanos);
    let n = shown.len() - 3;
    text::law_what_is_written_is_read(hundredths / 100);
    text::lemma_decimal(hundredths / 100);
    assert(shown.take(n) =~= text::decimal(hundredths / 100));
    let a = hundredths as int / 10 % 10;
    let b = hundredths as int % 10;
    lemma_two_digits(hundredths);
    let first = Seq::<char>::empty().push(text::digit(a));
    let digits = first.push(text::digit(b));
    text::law_decimal_notation_has_ten_digits(0, a, Seq::<char>::empty());
    text::law_decimal_notation_has_ten_digits(0, b, first);
    assert(text::value(Seq::<char>::empty()) == 0);
    assert(text::is_digit(digits[0]) && text::is_digit(digits[1]));
    assert(text::all_digits(digits));
    assert(shown.skip(n + 1) =~= digits);
    assert(text::natural(shown.take(n)) == Some(hundredths / 100));
}

/// A speed is the nearest whole number of nodes per second: so many in the time come
/// within half a node per second of the nodes that were counted.
pub proof fn law_a_speed_is_the_nearest_whole_number(nodes: nat, nanos: nat)
    requires
        nanos > 0,
    ensures
        -(nanos as int) < 2 * (speed(nodes, nanos) * nanos - nodes * 1_000_000_000) <= nanos,
        speed(nodes, 0) == speed(nodes, 1),
{
    let t = nanos as int;
    let twice = 2 * nodes * SECOND;
    assert(twice >= 0) by (nonlinear_arith)
        requires
            twice == 2 * nodes * SECOND,
            nodes >= 0,
    ;
    let k = twice / t;
    vstd::arithmetic::div_mod::lemma_fundamental_div_mod(twice, t);
    vstd::arithmetic::div_mod::lemma_mod_bound(twice, t);
    vstd::arithmetic::div_mod::lemma_div_pos_is_pos(twice, t);
    let shown = (k + 1) / 2;
    assert(shown == speed(nodes, nanos));
    if k % 2 == 0 {
        assert(2 * shown == k);
        assert(2 * (shown * t) == t * k) by (nonlinear_arith)
            requires
                2 * shown == k,
        ;
    } else {
        assert(2 * shown == k + 1);
        assert(2 * (shown * t) == t * k + t) by (nonlinear_arith)
            requires
                2 * shown == k + 1,
        ;
    }
}

/// A record of a game numbers the moves of white and those only: after what was written
/// before stands the number with a point where white moves, and then the move.
pub proof fn law_a_record_numbers_the_moves_of_white(line: Seq<char>, position: Position, m: Move)
    ensures
        ({
            let longer = with_move(line, position, m);
            let san = rules::san_text(position, m);
            let at = longer.len() - san.len() - 1;
            let number = longer.subrange(line.len() as int, at);
            &&& line.len() <= at
            &&& longer.take(line.len() as int) == line
            &&& longer.subrange(at, longer.len() - 1) == san
            &&& longer.last() == ' '
            &&& position.turn == Color::Black ==> number.len() == 0
            &&& position.turn == Color::White ==> number.len() > 2 && number.skip(number.len() - 2)
                == seq!['.', ' '] && text::natural(number.take(number.len() - 2)) == Some(
                position.fullmoves as nat,
            )
        }),
{
    reveal_strlit(". ");
    let longer = with_move(line, position, m);
    let san = rules::san_text(position, m);
    let at = longer.len() - san.len() - 1;
    let number = longer.subrange(line.len() as int, at);
    assert(longer.take(line.len() as int) =~= line);
    assert(longer.subrange(at, longer.len() - 1) =~= san);
    if position.turn == Color::White {
        text::law_what_is_written_is_read(position.fullmoves as nat);
        text::lemma_decimal(position.fullmoves as nat);
        assert(number.skip(number.len() - 2) =~= seq!['.', ' ']);
        assert(number.take(number.len() - 2) =~= text::decimal(position.fullmoves as nat));
    }
}

/// Whether a text says something somewhere.
pub open spec fn tells(said: Seq<char>, part: Seq<char>) -> bool {
    exists|at: int|
        0 <= at <= said.len() - part.len() && #[trigger] said.subrange(at, at + part.len()) == part
}

proof fn lemma_tells(said: Seq<char>, before: Seq<char>, part: Seq<char>, after: Seq<char>)
    requires
        said == before + part + after,
    ensures
        tells(said, part),
{
    let at = before.len() as int;
    assert(said.subrange(at, at + part.len()) =~= part);
}

/// What the engine says when it moves names the move and how it rates itself.
pub proof fn law_an_announcement_tells_the_move_and_the_score(
    position: Position,
    m: Move,
    result: SearchResult,
)
    ensures
        tells(announcement(position, m, result), "plays "@ + rules::san_text(position, m)),
        tells(announcement(position, m, result), "itself at "@ + result.score.text()),
{
    reveal_strlit("engine plays ");
    reveal_strlit("plays ");
    reveal_strlit(" (it rates itself at ");
    reveal_strlit("itself at ");
    let said = announcement(position, m, result);
    let san = rules::san_text(position, m);
    let score = result.score.text();
    let engine = "engine plays "@.take(7);
    let rates = " (it rates itself at "@.take(11);
    assert("engine plays "@ =~= engine + "plays "@);
    assert(" (it rates itself at "@ =~= rates + "itself at "@);
    let tail = " (it rates itself at "@ + score + ")"@;
    assert(said =~= engine + ("plays "@ + san) + tail);
    lemma_tells(said, engine, "plays "@ + san, tail);
    let head = "engine plays "@ + san + rates;
    assert(said =~= head + ("itself at "@ + score) + ")"@);
    lemma_tells(said, head, "itself at "@ + score, ")"@);
}

/// A decision names the move, how close to defeat it is thought to be, the nodes and the
/// time; where there is no move it says how the game has ended.
pub proof fn law_a_decision_tells_what_was_found(position: Position, result: SearchResult)
    ensures
        result.best_move is None ==> tells(
            decision_text(position, result),
            known_text(position.verdict()),
        ),
        result.best_move matches Some(m) ==> {
            let said = decision_text(position, result);
            &&& tells(said, "best "@ + rules::san_text(position, m))
            &&& tells(said, "sabotage "@ + text::signed(result.sabotage as int) + ","@)
            &&& tells(said, ", "@ + text::decimal(result.nodes as nat) + " nodes"@)
            &&& tells(said, " in "@ + seconds(result.elapsed.total()) + "s"@)
        },
{
    let said = decision_text(position, result);
    match result.best_move {
        None => {
            let ending = known_text(position.verdict());
            assert(said =~= "no legal moves: "@ + ending + Seq::<char>::empty());
            lemma_tells(said, "no legal moves: "@, ending, seq![]);
        },
        Some(m) => {
            reveal_strlit("  (sabotage ");
            reveal_strlit("sabotage ");
            reveal_strlit(", ");
            reveal_strlit(",");
            reveal_strlit(" nodes in ");
            reveal_strlit(" nodes");
            reveal_strlit(" in ");
            reveal_strlit("s)");
            reveal_strlit("s");
            let best = "best "@ + rules::san_text(position, m);
            let sabotage = text::signed(result.sabotage as int);
            let nodes = text::decimal(result.nodes as nat);
            let time = seconds(result.elapsed.total());
            let open = seq![' ', ' ', '('];
            let close = seq![')'];
            assert("  (sabotage "@ =~= open + "sabotage "@);
            assert(", "@ =~= ","@ + seq![' ']);
            assert(" nodes in "@ =~= " nodes"@ + " in "@);
            assert("s)"@ =~= "s"@ + close);
            let timed = time + "s)"@;
            let counted = nodes + " nodes in "@ + timed;
            let leaning = sabotage + ", "@ + counted;
            assert(said =~= best + "  (sabotage "@ + leaning);
            assert(said =~= Seq::<char>::empty() + best + ("  (sabotage "@ + leaning));
            lemma_tells(said, seq![], best, "  (sabotage "@ + leaning);
            let a = best + open;
            let first = "sabotage "@ + sabotage + ","@;
            assert(leaning =~= sabotage + ","@ + (seq![' '] + counted));
            assert(said =~= a + first + (seq![' '] + counted));
            lemma_tells(said, a, first, seq![' '] + counted);
            let b = best + "  (sabotage "@ + sabotage;
            let second = ", "@ + nodes + " nodes"@;
            assert(counted =~= nodes + " nodes"@ + (" in "@ + timed));
            assert(leaning =~= sabotage + second + (" in "@ + timed));
            assert(said =~= b + second + (" in "@ + timed));
            lemma_tells(said, b, second, " in "@ + timed);
            let c = b + second;
            let third = " in "@ + time + "s"@;
            assert(" in "@ + timed =~= third + close);
            assert(said =~= c + third + close);
            lemma_tells(said, c, third, close);
        },
    }
}

/// A report on an iteration names its depth, its score and its nodes, each in a column,
/// and ends with the line that it found.
pub proof fn law_a_progress_report_tells_what_was_found(position: Position, info: SearchInfo)
    ensures
        ({
            let said = progress_text(position, info);
            let depth = text::padded(text::decimal(info.depth as nat), 2);
            let score = text::padded(info.score.text(), 10);
            let nodes = text::padded(text::decimal(info.nodes as nat), 9);
            let line = text::trimmed_end(sans(position, info.pv@));
            &&& tells(said, "depth "@ + depth)
            &&& tells(said, "score "@ + score)
            &&& tells(said, "nodes "@ + nodes)
            &&& line.len() <= said.len() && said.skip(said.len() - line.len()) == line
        }),
{
    reveal_strlit("  score ");
    reveal_strlit("score ");
    reveal_strlit("  nodes ");
    reveal_strlit("nodes ");
    reveal_strlit("  ");
    let said = progress_text(position, info);
    let depth = "depth "@ + text::padded(text::decimal(info.depth as nat), 2);
    let score = text::padded(info.score.text(), 10);
    let nodes = text::padded(text::decimal(info.nodes as nat), 9);
    let line = text::trimmed_end(sans(position, info.pv@));
    assert("  score "@ =~= "  "@ + "score "@);
    assert("  nodes "@ =~= "  "@ + "nodes "@);
    let a = depth + "  "@;
    let b = a + ("score "@ + score) + "  "@;
    let c = b + ("nodes "@ + nodes) + "  "@;
    assert(said =~= c + line);
    assert(said =~= b + ("nodes "@ + nodes) + ("  "@ + line));
    let after = "  "@ + ("nodes "@ + nodes) + ("  "@ + line);
    assert(said =~= a + ("score "@ + score) + after);
    assert(said =~= Seq::<char>::empty() + depth + ("  "@ + ("score "@ + score) + after));
    lemma_tells(said, seq![], depth, "  "@ + ("score "@ + score) + after);
    lemma_tells(said, a, "score "@ + score, after);
    lemma_tells(said, b, "nodes "@ + nodes, "  "@ + line);
    assert(said.skip(said.len() - line.len()) =~= line);
}

/// A time that is given is all that bounds a search, to the millisecond and without
/// anything off for overhead; without one a search goes as deep as it is asked to, at least
/// one ply, and takes as long as that takes.
pub proof fn law_a_time_or_a_depth_bounds_a_search(args: SearchArgs, limits: Limits, turn: Color)
    requires
        args.bounds(limits),
    ensures
        args.movetime matches Some(millis) ==> {
            &&& millis > 0 ==> limits.allowance(turn) == Some((millis * 1_000_000) as nat)
            &&& root::depth_limit(limits) == 60
        },
        args.movetime is None ==> {
            &&& limits.allowance(turn) is None
            &&& args.depth > 0 ==> root::depth_limit(limits) == args.depth
            &&& args.depth == 0 ==> root::depth_limit(limits) == 1
        },
        limits.nodes is None,
        limits.search_moves@.len() == 0,
        !limits.infinite,
{
}

/// A move is meant by its name, `quit` by that word in any letters, and anything else is
/// refused with what was typed; white space after it does not matter.
pub proof fn law_what_is_typed_is_meant(position: Position, line: Seq<char>, m: Move)
    requires
        line.len() > 0,
        !text::is_space(line[0]),
        !text::is_space(line.last()),
    ensures
        text::small_letters(line) == "quit"@ ==> meant(position, line) == Intent::Quit,
        text::small_letters(line) != "quit"@ && move_named(position, line) == Some(m) ==> meant(
            position,
            line,
        ) == Intent::Move(m),
        text::small_letters(line) != "quit"@ && move_named(position, line) is None ==> (
        meant(position, line) matches Intent::Refused(message) && tells(message, line)),
        meant(position, line.push('\n')) == meant(position, line),
{
    assert(text::trimmed_end(line) == line);
    assert(text::trimmed_start(line) == line);
    assert(line.push('\n').drop_last() =~= line);
    assert(text::trimmed_end(line.push('\n')) == line);
    lemma_tells("'"@ + line + "' is not a legal move here"@, "'"@, line, "' is not a legal move here"@);
}

/// A game goes on while there is a move to play and no rule has drawn it. A player who is
/// mated has lost it.
pub proof fn law_when_a_game_is_over(game: Game)
    ensures
        ({
            let here = game.current();
            let drawn = here.halfmoves >= 100 || here.is_dead() || game::recurs(
                game.trail(),
                here.halfmoves as int,
            );
            let stuck = rules::legal(here).len() == 0;
            &&& conclusion(game) is None <==> !drawn && !stuck
            &&& drawn ==> conclusion(game)->0 == "draw: nothing left to lose with"@
            &&& !drawn && stuck && here.in_check() && here.turn == Color::White ==> conclusion(
                game,
            )->0 == "0-1: black wins"@
            &&& !drawn && stuck && here.in_check() && here.turn == Color::Black ==> conclusion(
                game,
            )->0 == "1-0: white wins"@
            &&& !drawn && stuck && !here.in_check() ==> conclusion(game)->0
                == "1/2-1/2: a draw, which is a failure"@
        }),
{
}

/// While a game goes on, one of the person and the engine is to move: the person where it is
/// their colour's turn, and the engine where it would be the person's if they had the other.
pub proof fn law_the_players_take_turns(game: Game, human: Color)
    ensures
        conclusion(game) matches Some(text) ==> coming(game, human) == Next::Over(text),
        conclusion(game) is None ==> {
            &&& coming(game, human) is Human <==> game.current().turn == human
            &&& coming(game, human) is Human <==> coming(game, human.opposite()) is Engine
            &&& coming(game, human) is Engine <==> coming(game, human.opposite()) is Human
        },
{
}

/// A game between engines ends when it is over, or after the last move that it may have.
pub proof fn law_a_game_lasts_as_long_as_it_may(game: Game, max_moves: int)
    ensures
        continues(game, max_moves) ==> conclusion(game) is None && continues(game, max_moves + 1),
        conclusion(game) is None ==> continues(game, game.current().fullmoves as int),
        !continues(game, game.current().fullmoves - 1),
{
}

/// Nothing of a record is lost: a line with another move is either kept, up to 68
/// characters, or handed out whole but for the blanks at its end.
pub proof fn law_a_record_is_broken_into_lines(line: Seq<char>, position: Position, m: Move)
    ensures
        ({
            let longer = with_move(line, position, m);
            let (kept, full) = written_down(line, position, m);
            &&& kept.len() <= 68
            &&& full is None <==> longer.len() <= 68
            &&& full is None ==> kept == longer
            &&& full matches Some(text) ==> kept.len() == 0 && text.len() <= longer.len() && text
                == longer.take(text.len() as int) && forall|i: int|
                text.len() <= i < longer.len() ==> text::is_space(#[trigger] longer[i])
        }),
{
    text::law_trimming_takes_off_white_space(with_move(line, position, m));
}

/// An analysis begins with the board, the FEN, how close to defeat the player to move is
/// thought to be, and who that is.
pub proof fn law_an_analysis_begins_with_the_position(position: Position, options: Options)
    ensures
        ({
            let head = analysis_head(position, options);
            let badness = eval::evaluation(position, position.turn, options.weights);
            &&& head.len() == 4
            &&& head[0] == game::drawing(position)
            &&& tells(head[1], rules::fen_text(position))
            &&& tells(head[2], "sabotage "@ + text::signed(badness) + " ("@)
            &&& tells(head[2], "("@ + seq![position.turn.letter()] + " to move"@)
            &&& head[3].len() == 0
        }),
{
    reveal_strlit("static sabotage ");
    reveal_strlit("sabotage ");
    reveal_strlit(" (");
    reveal_strlit("(");
    reveal_strlit(" to move");
    reveal_strlit(" to move, higher is closer to defeat)");
    let head = analysis_head(position, options);
    let number = text::signed(eval::evaluation(position, position.turn, options.weights));
    let player = seq![position.turn.letter()];
    let fen = rules::fen_text(position);
    assert(head[1] =~= "fen "@ + fen + Seq::<char>::empty());
    lemma_tells(head[1], "fen "@, fen, seq![]);
    let still = "static sabotage "@.take(7);
    assert("static sabotage "@ =~= still + "sabotage "@);
    let rest = " to move, higher is closer to defeat)"@;
    let higher = rest.skip(8);
    assert(rest =~= " to move"@ + higher);
    let one = "sabotage "@ + number + " ("@;
    assert(head[2] =~= still + one + (player + rest));
    lemma_tells(head[2], still, one, player + rest);
    let two = "("@ + player + " to move"@;
    assert(" ("@ =~= seq![' '] + "("@);
    let before = still + ("sabotage "@ + number) + seq![' '];
    assert(head[2] =~= before + two + higher);
    lemma_tells(head[2], before, two, higher);
}

/// A move that is played is remembered: the history is what it was and the key of the
/// position that the move leads to. Where there is no move nothing changes, and nothing is
/// written down.
pub proof fn law_a_played_move_is_remembered(
    best: Option<Move>,
    before: Game,
    after: Game,
    line: Seq<char>,
    new_line: Seq<char>,
    step: Step,
)
    requires
        played(best, before, after),
        recorded(best, before.current(), line, new_line, step),
    ensures
        best is None ==> after == before && new_line == line && step is Stuck,
        best matches Some(m) ==> {
            &&& rules::legal(before.current()).contains(m)
            &&& after.current() == rules::after(before.current(), m)
            &&& after.trail().len() == before.trail().len() + 1
            &&& after.trail().drop_last() == before.trail()
            &&& after.trail().last() == game::hash(after.current())
            &&& step is Played
            &&& new_line.len() <= 68
            &&& new_line == with_move(line, before.current(), m) || with_move(
                line,
                before.current(),
                m,
            ).len() > 68
        },
{
    if let Some(m) = best {
        assert(after.trail().drop_last() =~= before.trail());
    }
}

} // verus!
