//! A session: what the client has said so far, and what to answer.
//!
//! A [`Server`] turns each line of the client into a [`Reply`]: the lines to send
//! back, and what has to happen to the engine. Whoever runs the session sends the
//! lines and does it.

use vstd::prelude::*;
use vstd::string::*;

use crate::chess::{Move, Position};
use crate::clock::Duration;
use crate::eval;
use crate::eval::evaluate_with;
use crate::game;
use crate::game::{rank_row, Game};
use crate::position::perft;
use crate::rules;
use crate::rules::{find_uci, parse_uci};
use crate::search::limits::Limits;
use crate::search::options::{OpponentModel, Options};
use crate::text;
use crate::text::{
    find, join, lowercase, parse_i32, parse_natural, parse_u32, parse_usize, push_hex, push_number,
    push_signed, says, split_words,
};
use crate::uci::protocol;
use crate::uci::protocol::{clamp_i32, clamp_usize, Action, Desk, Flow, Reply};
use crate::{ENGINE_AUTHOR, ENGINE_NAME};

verus! {

/// A UCI session: the settings, one game, and how much time to take.
pub struct Server {
    options: Options,
    game: Game,
    move_overhead: Duration,
    depth_timeout: Duration,
    debug: bool,
}

/// A reply that only says something.
fn say(lines: Vec<String>) -> (reply: Reply)
    ensures
        reply.response() == protocol::saying(text::views(lines@)),
{
    Reply { flow: Flow::Continue, finish: false, lines, action: Action::Nothing }
}

/// A reply that ends a search, says something, and does something.
fn act(lines: Vec<String>, action: Action) -> (reply: Reply)
    ensures
        reply.response() == protocol::doing(text::views(lines@), action.deed()),
{
    Reply { flow: Flow::Continue, finish: true, lines, action }
}

/// Nothing to say.
fn silence() -> (lines: Vec<String>)
    ensures
        text::views(lines@) == Seq::<Seq<char>>::empty(),
{
    let lines: Vec<String> = Vec::new();
    proof {
        assert(text::views(lines@) =~= Seq::<Seq<char>>::empty());
    }
    lines
}

/// One thing to say.
fn single(line: String) -> (lines: Vec<String>)
    ensures
        text::views(lines@) == seq![line@],
{
    let mut lines: Vec<String> = Vec::new();
    lines.push(line);
    proof {
        assert(text::views(lines@) =~= seq![line@]);
    }
    lines
}

/// Adds a line.
fn put(lines: &mut Vec<String>, line: String)
    ensures
        text::views(final(lines)@) == text::views(old(lines)@).push(line@),
{
    lines.push(line);
    proof {
        assert(text::views(lines@) =~= text::views(old(lines)@).push(line@));
    }
}

/// Whether a word starts a command we know.
pub fn is_command(word: &String) -> (known: bool)
    ensures
        known == protocol::commands(word@),
{
    says(word, "uci") || says(word, "isready") || says(word, "debug") || says(word, "ucinewgame") || says(
        word,
        "setoption",
    ) || says(word, "position") || says(word, "go") || says(word, "stop") || says(word, "ponderhit") || says(
        word,
        "quit",
    ) || says(word, "d") || says(word, "board") || says(word, "eval") || says(word, "perft")
}

/// The words from `from` on.
fn rest_of(words: &Vec<String>, from: usize) -> (rest: Vec<String>)
    requires
        from <= words.len(),
    ensures
        text::views(rest@) == text::views(words@).skip(from as int),
{
    let mut rest: Vec<String> = Vec::new();
    let mut index: usize = from;
    while index < words.len()
        invariant
            from <= index <= words.len(),
            rest.len() == index - from,
            forall|i: int| 0 <= i < rest.len() ==> (#[trigger] rest@[i])@ == words@[from + i]@,
        decreases words.len() - index,
    {
        rest.push(words[index].clone());
        index += 1;
    }
    proof {
        assert(text::views(rest@) =~= text::views(words@).skip(from as int));
    }
    rest
}

/// A setting of the `spin` type with its default.
fn spin(name: &str, default: i64, range: &str) -> (line: String)
    ensures
        line@ == protocol::spin(name@, default as int, range@),
{
    let mut line = "option name ".to_owned();
    line.append(name);
    line.append(" type spin default ");
    push_signed(&mut line, default);
    line.append(range);
    line
}

/// A setting of the `spin` type that counts something, with its default.
fn count_spin(name: &str, default: usize, range: &str) -> (line: String)
    ensures
        line@ == protocol::spin(name@, default as int, range@),
{
    let mut line = "option name ".to_owned();
    line.append(name);
    line.append(" type spin default ");
    push_number(&mut line, default as u128);
    line.append(range);
    line
}

/// How the engine introduces itself.
fn identify(options: &Options) -> (lines: Vec<String>)
    ensures
        text::views(lines@) == protocol::introduction(*options),
{
    let mut lines = silence();
    put(&mut lines, "id name ".to_owned().concat(ENGINE_NAME));
    put(&mut lines, "id author ".to_owned().concat(ENGINE_AUTHOR));
    put(&mut lines, count_spin("Hash", options.hash_mb, " min 1 max 4096"));
    let mut model = "option name Opponent Model type combo default ".to_owned();
    model.append(options.model.name());
    model.append(" var ");
    model.append(OpponentModel::Optimistic.name());
    model.append(" var ");
    model.append(OpponentModel::Paranoid.name());
    put(&mut lines, model);
    put(&mut lines, count_spin("Opponent Moves", options.opponent_moves, " min 1 max 64"));
    put(&mut lines, count_spin("Own Moves", options.own_moves, " min 1 max 218"));
    put(
        &mut lines,
        spin("Opportunity Bonus", options.opportunity_bonus as i64, " min 0 max 30000"),
    );
    put(&mut lines, spin("Draw Penalty", options.draw_penalty as i64, " min 0 max 1000"));
    put(&mut lines, spin("Malice", options.malice as i64, " min 0 max 100"));
    put(
        &mut lines,
        "option name Move Overhead type spin default 30 min 0 max 5000".to_owned(),
    );
    put(
        &mut lines,
        "option name Depth Timeout type spin default 5000 min 0 max 600000".to_owned(),
    );
    put(&mut lines, "option name Clear Hash type button".to_owned());
    put(&mut lines, "uciok".to_owned());
    proof {
        assert(text::views(lines@) =~= protocol::introduction(*options));
    }
    lines
}

impl Server {
    /// The state of the session.
    pub closed spec fn desk(self) -> Desk {
        Desk {
            options: self.options,
            position: self.game.current(),
            trail: self.game.trail(),
            overhead: self.move_overhead.total(),
            timeout: self.depth_timeout.total(),
            debug: self.debug,
        }
    }

    /// The history of the game ends with its position, and no score under the
    /// settings can leave the range of an `i32`.
    pub open spec fn wf(self) -> bool {
        &&& self.desk().trail.len() > 0
        &&& self.desk().trail.last() == game::hash(self.desk().position)
        &&& self.desk().options.in_range()
    }

    /// A session at the starting position.
    pub fn new() -> (server: Server)
        ensures
            server.wf(),
            server.desk() == protocol::fresh(Options::usual()),
    {
        Server::with_options(Options::default())
    }

    /// A session with the engine configured up front.
    pub fn with_options(options: Options) -> (server: Server)
        requires
            options.in_range(),
        ensures
            server.wf(),
            server.desk() == protocol::fresh(options),
    {
        Server {
            options,
            game: Game::new(),
            move_overhead: Duration::from_millis(30),
            depth_timeout: Duration::from_millis(5000),
            debug: false,
        }
    }

    /// The settings of the session.
    pub fn options(&self) -> (options: Options)
        ensures
            options == self.desk().options,
    {
        self.options
    }

    /// The game as it currently stands.
    pub fn game(&self) -> (game: &Game)
        ensures
            game.current() == self.desk().position,
            game.trail() == self.desk().trail,
            self.wf() ==> game.wf(),
    {
        &self.game
    }

    /// Whether the client wants to know more.
    pub fn debugs(&self) -> (debug: bool)
        ensures
            debug == self.desk().debug,
    {
        self.debug
    }

    /// `setoption name <name with spaces> [value <value with spaces>]`
    fn set_option(&mut self, words: &Vec<String>) -> (reply: Reply)
        requires
            old(self).wf(),
        ensures
            final(self).wf(),
            (final(self).desk(), reply.response()) == protocol::option_set(
                old(self).desk(),
                text::views(words@),
            ),
    {
        let name_at = match find(words, "name") {
            Some(index) => index,
            None => return say(silence()),
        };
        let value_at = find(words, "value");
        let name_end: usize = match value_at {
            Some(index) => index,
            None => words.len(),
        };
        if name_at + 1 > name_end {
            return say(silence());
        }
        let name = lowercase(join(words, name_at + 1, name_end).as_str());
        let value = match value_at {
            Some(index) => join(words, index + 1, words.len()),
            None => String::new(),
        };
        proof {
            if let Some(index) = value_at {
                assert(text::views(words@).subrange(index + 1, words.len() as int) =~= text::views(
                    words@,
                ).skip(index as int + 1));
            } else {
                assert(value@ =~= seq![]);
            }
        }
        self.adjust(&name, value.as_str())
    }

    /// Sets an option, by its name in lower case, to a value.
    pub fn adjust(&mut self, name: &String, value: &str) -> (reply: Reply)
        requires
            old(self).wf(),
        ensures
            final(self).wf(),
            (final(self).desk(), reply.response()) == protocol::adjusted(
                old(self).desk(),
                name@,
                value@,
            ),
    {
        if says(name, "hash") {
            if let Some(n) = parse_usize(value) {
                self.options.hash_mb = clamp_usize(n, 1, 4096);
                return act(silence(), Action::Resize);
            }
        } else if says(name, "opponent model") {
            match OpponentModel::parse(value) {
                Ok(model) => {
                    self.options.model = model;
                    return act(silence(), Action::Configure);
                },
                Err(message) => {
                    let line = "info string ".to_owned().concat(message.as_str());
                    return act(single(line), Action::Nothing);
                },
            }
        } else if says(name, "opponent moves") {
            if let Some(n) = parse_usize(value) {
                self.options.opponent_moves = clamp_usize(n, 1, 64);
                return act(silence(), Action::Configure);
            }
        } else if says(name, "own moves") {
            if let Some(n) = parse_usize(value) {
                self.options.own_moves = clamp_usize(n, 1, 218);
                return act(silence(), Action::Configure);
            }
        } else if says(name, "opportunity bonus") {
            if let Some(n) = parse_i32(value) {
                self.options.opportunity_bonus = clamp_i32(n, 0, 30_000);
                return act(silence(), Action::Configure);
            }
        } else if says(name, "draw penalty") {
            if let Some(n) = parse_i32(value) {
                self.options.draw_penalty = clamp_i32(n, 0, 1000);
                return act(silence(), Action::Configure);
            }
        } else if says(name, "malice") {
            if let Some(n) = parse_i32(value) {
                self.options.malice = clamp_i32(n, 0, 100);
                return act(silence(), Action::Configure);
            }
        } else if says(name, "depth timeout") {
            if let Some(n) = parse_natural(value) {
                let millis: u64 = if n > 600_000 {
                    600_000
                } else {
                    n
                };
                self.depth_timeout = Duration::from_millis(millis);
            }
        } else if says(name, "move overhead") {
            if let Some(n) = parse_natural(value) {
                let millis: u64 = if n > 5_000 {
                    5_000
                } else {
                    n
                };
                self.move_overhead = Duration::from_millis(millis);
            }
        } else if says(name, "clear hash") {
            return act(silence(), Action::Clear);
        }
        act(silence(), Action::Nothing)
    }

    /// `position [startpos | fen <fen>] [moves <move>...]`
    fn set_position(&mut self, words: &Vec<String>) -> (reply: Reply)
        requires
            old(self).wf(),
        ensures
            final(self).wf(),
            (final(self).desk(), reply.response()) == protocol::position_set(
                old(self).desk(),
                text::views(words@),
            ),
    {
        let moves_at = find(words, "moves");
        let end: usize = match moves_at {
            Some(index) => index,
            None => words.len(),
        };
        let ghost all = text::views(words@);
        let ghost setup = all.take(end as int);
        proof {
            if moves_at is None {
                assert(setup =~= all);
            }
        }
        let mut game = if end > 0 && says(&words[0], "startpos") {
            proof {
                assert(setup[0] == words@[0]@);
            }
            Game::new()
        } else if end > 0 && says(&words[0], "fen") {
            proof {
                assert(setup[0] == words@[0]@);
                assert(setup.skip(1) =~= all.subrange(1, end as int));
            }
            match Game::from_fen(join(words, 1, end).as_str()) {
                Ok(game) => game,
                Err(error) => {
                    let line = "info string ".to_owned().concat(error.message().as_str());
                    return act(single(line), Action::Nothing);
                },
            }
        } else {
            proof {
                if end > 0 {
                    assert(setup[0] == words@[0]@);
                }
            }
            return act(silence(), Action::Nothing);
        };
        if let Some(at) = moves_at {
            let ghost first = game.current();
            let ghost trail = game.trail();
            let mut index: usize = at + 1;
            while index < words.len()
                invariant
                    at < index <= words.len(),
                    all == text::views(words@),
                    game.wf(),
                    protocol::moves_played(first, trail, all, (at + 1) as nat)
                        == protocol::moves_played(
                        game.current(),
                        game.trail(),
                        all,
                        index as nat,
                    ),
                    self.wf(),
                    *self == *old(self),
                    moves_at == Some(at),
                    end == at,
                    setup == all.take(end as int),
                    protocol::set_up(setup) == Ok::<Position, Seq<Seq<char>>>(first),
                    trail == seq![game::hash(first)],
                    text::first(all, "moves"@, 0) == Some(at as nat),
                decreases words.len() - index,
            {
                let word = &words[index];
                match game.play_uci(word.as_str()) {
                    Ok(m) => {},
                    Err(error) => {
                        let mut line = "info string ".to_owned();
                        line.append(word.as_str());
                        line.append(": ");
                        line.append(error.message().as_str());
                        return act(single(line), Action::Nothing);
                    },
                }
                index += 1;
            }
        }
        self.game = game;
        act(silence(), Action::Nothing)
    }

    /// `go [searchmoves <move>...] [depth n] [nodes n] [movetime ms] ...`
    pub fn parse_go(&self, words: &Vec<String>) -> (limits: Limits)
        requires
            self.wf(),
        ensures
            limits.request() == protocol::requested(self.desk(), text::views(words@)),
            forall|i: int|
                0 <= i < limits.search_moves@.len() ==> rules::legal(self.desk().position).contains(
                    #[trigger] limits.search_moves@[i],
                ),
    {
        let ghost all = text::views(words@);
        let ghost here = self.desk().position;
        let mut limits = Limits::default();
        limits.move_overhead = self.move_overhead;
        let ghost open = protocol::open_request(self.desk().overhead);
        proof {
            assert(limits.search_moves@ =~= seq![]);
            assert(limits.request() == open);
        }
        let mut index: usize = 0;
        while index < words.len()
            invariant
                index <= words.len(),
                self.wf(),
                all == text::views(words@),
                here == self.desk().position,
                protocol::go_words(here, all, 0, open) == protocol::go_words(
                    here,
                    all,
                    index as nat,
                    limits.request(),
                ),
                forall|i: int|
                    0 <= i < limits.search_moves@.len() ==> rules::legal(here).contains(
                        #[trigger] limits.search_moves@[i],
                    ),
            decreases words.len() - index,
        {
            let word = &words[index];
            if says(word, "searchmoves") {
                // Everything up to the next keyword is a move to restrict the
                // search to.
                let ghost before = limits.request();
                let ghost from = (index + 1) as nat;
                let ghost found = protocol::moves_among(here, all, from);
                index += 1;
                let mut more: bool = true;
                proof {
                    assert(before.search_moves + seq![] =~= before.search_moves);
                }
                while more && index < words.len()
                    invariant
                        from <= index <= words.len(),
                        all == text::views(words@),
                        self.wf(),
                        here == self.desk().position,
                        found == protocol::moves_among(here, all, from),
                        limits.request() == (protocol::Request {
                            search_moves: limits.search_moves@,
                            ..before
                        }),
                        more ==> before.search_moves + found == limits.search_moves@
                            + protocol::moves_among(here, all, index as nat),
                        more ==> found.len() == index - from + protocol::moves_among(
                            here,
                            all,
                            index as nat,
                        ).len(),
                        !more ==> before.search_moves + found == limits.search_moves@,
                        !more ==> found.len() == index - from,
                        forall|i: int|
                            0 <= i < limits.search_moves@.len() ==> rules::legal(here).contains(
                                #[trigger] limits.search_moves@[i],
                            ),
                    decreases
                            words.len() - index,
                            if more {
                                1int
                            } else {
                                0int
                            },
                {
                    let ghost rest = protocol::moves_among(here, all, index as nat);
                    let ghost gathered = limits.search_moves@;
                    match self.move_in(&words[index]) {
                        Some(m) => {
                            limits.search_moves.push(m);
                            index += 1;
                            proof {
                                let tail = protocol::moves_among(here, all, index as nat);
                                assert(rest == seq![m] + tail);
                                assert(gathered + rest =~= gathered.push(m) + tail);
                            }
                        },
                        None => {
                            more = false;
                            proof {
                                assert(rest == Seq::<Move>::empty());
                                assert(gathered + rest =~= gathered);
                            }
                        },
                    }
                }
                proof {
                    if more {
                        assert(limits.search_moves@ + Seq::<Move>::empty()
                            =~= limits.search_moves@);
                    }
                }
            } else {
                let value: Option<u64> = if index + 1 < words.len() {
                    parse_natural(words[index + 1].as_str())
                } else {
                    None
                };
                limit(&mut limits, word, value);
                index += 1;
            }
        }
        let timeout: u128 = self.depth_timeout.as_nanos();
        if limits.is_unbounded() {
            // A `go` with nothing to bound it means "think until told to stop".
            limits.infinite = true;
        } else if limits.is_depth_only() && timeout > 0 {
            // A depth with no clock behind it is an open-ended request, and
            // this engine cannot promise to answer one quickly: the optimistic
            // model has no alpha-beta cutoffs to prune with, and the paranoid
            // one can spend minutes on a deep middlegame. Rather than leave a
            // client waiting, give it the best line found within the budget and
            // report the depth actually reached.
            limits.movetime = Some(self.depth_timeout);
        }
        limits
    }

    /// The move of the current position that a word stands for.
    fn move_in(&self, word: &String) -> (found: Option<Move>)
        ensures
            found == protocol::denoted(self.desk().position, word@),
            found matches Some(m) ==> rules::legal(self.desk().position).contains(m),
    {
        match parse_uci(word.as_str()) {
            Some(uci) => find_uci(self.game.position(), uci),
            None => None,
        }
    }

    /// The board, its FEN and its hash.
    fn show(&self) -> (lines: Vec<String>)
        requires
            self.wf(),
        ensures
            text::views(lines@) == protocol::board_shown(self.desk().position),
    {
        let position = self.game.position();
        let mut lines = silence();
        let mut shown: u8 = 0;
        proof {
            assert(text::views(lines@) =~= protocol::rows(*position, 0));
        }
        while shown < 8
            invariant
                shown <= 8,
                text::views(lines@) == protocol::rows(*position, shown as nat),
            decreases 8 - shown,
        {
            put(&mut lines, rank_row(position, 7 - shown));
            shown += 1;
            proof {
                assert(text::views(lines@) =~= protocol::rows(*position, shown as nat));
            }
        }
        put(&mut lines, "  a b c d e f g h".to_owned());
        put(&mut lines, "fen ".to_owned().concat(self.game.fen().as_str()));
        let mut key = "key ".to_owned();
        push_hex(&mut key, self.game.key(), 16);
        put(&mut lines, key);
        proof {
            assert(text::views(lines@) =~= protocol::board_shown(self.desk().position));
        }
        lines
    }

    /// The static score of the position, for the player to move.
    fn show_eval(&self) -> (lines: Vec<String>)
        requires
            self.wf(),
        ensures
            text::views(lines@) == protocol::evaluation_shown(self.desk()),
    {
        let victim = self.game.position().turn;
        proof {
            eval::lemma_reach(self.game.current(), victim, self.options.weights);
        }
        let sabotage: i32 = evaluate_with(self.game.position(), victim, &self.options.weights);
        let mut line = "sabotage ".to_owned();
        push_signed(&mut line, sabotage as i64);
        line.append(" (from ");
        line.push(victim.char());
        line.append("'s point of view; higher means closer to defeat)");
        let mut score = "score cp ".to_owned();
        push_signed(&mut score, -(sabotage as i64));
        proof {
            let desk = self.desk();
            assert(line@ =~= protocol::evaluation_shown(desk)[0]);
        }
        let mut lines = silence();
        put(&mut lines, line);
        put(&mut lines, score);
        proof {
            assert(text::views(lines@) =~= protocol::evaluation_shown(self.desk()));
        }
        lines
    }

    /// The number of leaves at a depth.
    fn perft(&self, words: &Vec<String>) -> (line: String)
        ensures
            line@ == protocol::leaves_shown(self.desk().position, text::views(words@)),
    {
        let depth: Option<u32> = if words.len() > 0 {
            proof {
                assert(text::views(words@)[0] == words@[0]@);
            }
            parse_u32(words[0].as_str())
        } else {
            None
        };
        match depth {
            Some(depth) => {
                let mut line = "nodes ".to_owned();
                push_number(&mut line, perft(self.game.position(), depth) as u128);
                line
            },
            None => "info string perft needs a depth".to_owned(),
        }
    }

    /// Handle one line of input.
    ///
    /// Unknown commands are ignored, as the protocol requires: a GUI may send
    /// anything, and an engine that falls over on a surprise is no use.
    pub fn handle(&mut self, line: &str) -> (reply: Reply)
        requires
            old(self).wf(),
        ensures
            final(self).wf(),
            (final(self).desk(), reply.response()) == protocol::handled(old(self).desk(), line@),
            reply.action matches Action::Search(limits) ==> forall|i: int|
                0 <= i < limits.search_moves@.len() ==> rules::legal(
                    final(self).desk().position,
                ).contains(#[trigger] limits.search_moves@[i]),
    {
        self.obey(&split_words(line))
    }

    /// Does what the words of a line say.
    pub fn obey(&mut self, words: &Vec<String>) -> (reply: Reply)
        requires
            old(self).wf(),
        ensures
            final(self).wf(),
            (final(self).desk(), reply.response()) == protocol::obeyed(
                old(self).desk(),
                text::views(words@),
            ),
            reply.action matches Action::Search(limits) ==> forall|i: int|
                0 <= i < limits.search_moves@.len() ==> rules::legal(
                    final(self).desk().position,
                ).contains(#[trigger] limits.search_moves@[i]),
    {
        let ghost all = text::views(words@);
        // The protocol asks engines to ignore tokens they do not recognise and
        // parse the rest of the line, so `joho debug on` means `debug on`.
        let mut at: usize = 0;
        while at < words.len() && !is_command(&words[at])
            invariant
                at <= words.len(),
                all == text::views(words@),
                protocol::command_at(all, 0) == protocol::command_at(all, at as nat),
            decreases words.len() - at,
        {
            at += 1;
        }
        if at == words.len() {
            return say(silence());
        }
        let rest = rest_of(words, at + 1);
        proof {
            assert(protocol::command_at(all, 0) == Some(at as nat));
            assert(words@[at as int]@ == all[at as int]);
        }
        self.carry_out(&words[at], &rest)
    }

    /// Does what a command and the words after it say.
    #[verifier::spinoff_prover]
    #[verifier::rlimit(40)]
    fn carry_out(&mut self, command: &String, rest: &Vec<String>) -> (reply: Reply)
        requires
            old(self).wf(),
        ensures
            final(self).wf(),
            (final(self).desk(), reply.response()) == protocol::carried_out(
                old(self).desk(),
                command@,
                text::views(rest@),
            ),
            reply.action matches Action::Search(limits) ==> forall|i: int|
                0 <= i < limits.search_moves@.len() ==> rules::legal(
                    final(self).desk().position,
                ).contains(#[trigger] limits.search_moves@[i]),
    {
        let ghost tail = text::views(rest@);
        reveal(protocol::carried_out);
        if says(command, "uci") {
            say(identify(&self.options))
        } else if says(command, "isready") {
            say(single("readyok".to_owned()))
        } else if says(command, "debug") {
            proof {
                if rest.len() > 0 {
                    assert(tail[0] == rest@[0]@);
                }
            }
            self.debug = rest.len() == 0 || !says(&rest[0], "off");
            say(silence())
        } else if says(command, "ucinewgame") {
            self.game = Game::new();
            act(silence(), Action::Clear)
        } else if says(command, "setoption") {
            self.set_option(rest)
        } else if says(command, "position") {
            self.set_position(rest)
        } else if says(command, "go") {
            let limits = self.parse_go(rest);
            act(silence(), Action::Search(limits))
        } else if says(command, "stop") {
            act(silence(), Action::Nothing)
        } else if says(command, "quit") {
            Reply {
                flow: Flow::Quit,
                finish: false,
                lines: silence(),
                action: Action::Nothing,
            }
        } else if says(command, "d") || says(command, "board") {
            // Conveniences for driving the engine by hand.
            say(self.show())
        } else if says(command, "eval") {
            say(self.show_eval())
        } else if says(command, "perft") {
            say(single(self.perft(rest)))
        } else {
            say(silence())
        }
    }
}

/// What a keyword of `go` with its number adds to the limits.
fn limit(limits: &mut Limits, word: &String, value: Option<u64>)
    ensures
        final(limits).request() == protocol::bounded(old(limits).request(), word@, value),
        final(limits).search_moves@ == old(limits).search_moves@,
{
    let short: Option<u32> = match value {
        Some(n) => Some(n as u32),
        None => None,
    };
    let time: Option<Duration> = match value {
        Some(n) => Some(Duration::from_millis(n)),
        None => None,
    };
    if says(word, "depth") {
        limits.depth = short;
    } else if says(word, "nodes") {
        limits.nodes = value;
    } else if says(word, "movetime") {
        limits.movetime = time;
    } else if says(word, "wtime") {
        limits.white_time = time;
    } else if says(word, "btime") {
        limits.black_time = time;
    } else if says(word, "winc") {
        limits.white_increment = time;
    } else if says(word, "binc") {
        limits.black_increment = time;
    } else if says(word, "movestogo") {
        limits.moves_to_go = short;
    } else if says(word, "infinite") {
        limits.infinite = true;
    }
}

} // verus!
