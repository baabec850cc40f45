//! What each command of a client does.
//!
//! The laws here follow a line from its words to what it changes and what is said
//! about it.

use vstd::prelude::*;

use crate::chess::{Move, Position};
use crate::eval;
use crate::game;
use crate::game::Refusal;
use crate::position;
use crate::rules;
use crate::search::options;
use crate::search::options::{OpponentModel, Options};
use crate::search::score;
use crate::text;
use crate::uci::protocol;
use crate::uci::protocol::{Deed, Desk, Flow, Request, Response};
use crate::{ENGINE_AUTHOR, ENGINE_NAME};

verus! {

/// No two commands are the same word.
proof fn lemma_commands_differ()
    ensures
        "uci"@ != "isready"@,
        "uci"@ != "debug"@,
        "uci"@ != "ucinewgame"@,
        "uci"@ != "setoption"@,
        "uci"@ != "position"@,
        "uci"@ != "go"@,
        "uci"@ != "stop"@,
        "uci"@ != "ponderhit"@,
        "uci"@ != "quit"@,
        "uci"@ != "d"@,
        "uci"@ != "board"@,
        "uci"@ != "eval"@,
        "uci"@ != "perft"@,
        "isready"@ != "debug"@,
        "isready"@ != "ucinewgame"@,
        "isready"@ != "setoption"@,
        "isready"@ != "position"@,
        "isready"@ != "go"@,
        "isready"@ != "stop"@,
        "isready"@ != "ponderhit"@,
        "isready"@ != "quit"@,
        "isready"@ != "d"@,
        "isready"@ != "board"@,
        "isready"@ != "eval"@,
        "isready"@ != "perft"@,
        "debug"@ != "ucinewgame"@,
        "debug"@ != "setoption"@,
        "debug"@ != "position"@,
        "debug"@ != "go"@,
        "debug"@ != "stop"@,
        "debug"@ != "ponderhit"@,
        "debug"@ != "quit"@,
        "debug"@ != "d"@,
        "debug"@ != "board"@,
        "debug"@ != "eval"@,
        "debug"@ != "perft"@,
        "ucinewgame"@ != "setoption"@,
        "ucinewgame"@ != "position"@,
        "ucinewgame"@ != "go"@,
        "ucinewgame"@ != "stop"@,
        "ucinewgame"@ != "ponderhit"@,
        "ucinewgame"@ != "quit"@,
        "ucinewgame"@ != "d"@,
        "ucinewgame"@ != "board"@,
        "ucinewgame"@ != "eval"@,
        "ucinewgame"@ != "perft"@,
        "setoption"@ != "position"@,
        "setoption"@ != "go"@,
        "setoption"@ != "stop"@,
        "setoption"@ != "ponderhit"@,
        "setoption"@ != "quit"@,
        "setoption"@ != "d"@,
        "setoption"@ != "board"@,
        "setoption"@ != "eval"@,
        "setoption"@ != "perft"@,
        "position"@ != "go"@,
        "position"@ != "stop"@,
        "position"@ != "ponderhit"@,
        "position"@ != "quit"@,
        "position"@ != "d"@,
        "position"@ != "board"@,
        "position"@ != "eval"@,
        "position"@ != "perft"@,
        "go"@ != "stop"@,
        "go"@ != "ponderhit"@,
        "go"@ != "quit"@,
        "go"@ != "d"@,
        "go"@ != "board"@,
        "go"@ != "eval"@,
        "go"@ != "perft"@,
        "stop"@ != "ponderhit"@,
        "stop"@ != "quit"@,
        "stop"@ != "d"@,
        "stop"@ != "board"@,
        "stop"@ != "eval"@,
        "stop"@ != "perft"@,
        "ponderhit"@ != "quit"@,
        "ponderhit"@ != "d"@,
        "ponderhit"@ != "board"@,
        "ponderhit"@ != "eval"@,
        "ponderhit"@ != "perft"@,
        "quit"@ != "d"@,
        "quit"@ != "board"@,
        "quit"@ != "eval"@,
        "quit"@ != "perft"@,
        "d"@ != "board"@,
        "d"@ != "eval"@,
        "d"@ != "perft"@,
        "board"@ != "eval"@,
        "board"@ != "perft"@,
        "eval"@ != "perft"@,
{
    reveal_strlit("uci");
    reveal_strlit("isready");
    reveal_strlit("debug");
    reveal_strlit("ucinewgame");
    reveal_strlit("setoption");
    reveal_strlit("position");
    reveal_strlit("go");
    reveal_strlit("stop");
    reveal_strlit("ponderhit");
    reveal_strlit("quit");
    reveal_strlit("d");
    reveal_strlit("board");
    reveal_strlit("eval");
    reveal_strlit("perft");
    assert("uci"@.len() != "isready"@.len());
    assert("uci"@.len() != "debug"@.len());
    assert("uci"@.len() != "ucinewgame"@.len());
    assert("uci"@.len() != "setoption"@.len());
    assert("uci"@.len() != "position"@.len());
    assert("uci"@.len() != "go"@.len());
    assert("uci"@.len() != "stop"@.len());
    assert("uci"@.len() != "ponderhit"@.len());
    assert("uci"@.len() != "quit"@.len());
    assert("uci"@.len() != "d"@.len());
    assert("uci"@.len() != "board"@.len());
    assert("uci"@.len() != "eval"@.len());
    assert("uci"@.len() != "perft"@.len());
    assert("isready"@.len() != "debug"@.len());
    assert("isready"@.len() != "ucinewgame"@.len());
    assert("isready"@.len() != "setoption"@.len());
    assert("isready"@.len() != "position"@.len());
    assert("isready"@.len() != "go"@.len());
    assert("isready"@.len() != "stop"@.len());
    assert("isready"@.len() != "ponderhit"@.len());
    assert("isready"@.len() != "quit"@.len());
    assert("isready"@.len() != "d"@.len());
    assert("isready"@.len() != "board"@.len());
    assert("isready"@.len() != "eval"@.len());
    assert("isready"@.len() != "perft"@.len());
    assert("debug"@.len() != "ucinewgame"@.len());
    assert("debug"@.len() != "setoption"@.len());
    assert("debug"@.len() != "position"@.len());
    assert("debug"@.len() != "go"@.len());
    assert("debug"@.len() != "stop"@.len());
    assert("debug"@.len() != "ponderhit"@.len());
    assert("debug"@.len() != "quit"@.len());
    assert("debug"@.len() != "d"@.len());
    assert("debug"@[0] != "board"@[0]);
    assert("debug"@.len() != "eval"@.len());
    assert("debug"@[0] != "perft"@[0]);
    assert("ucinewgame"@.len() != "setoption"@.len());
    assert("ucinewgame"@.len() != "position"@.len());
    assert("ucinewgame"@.len() != "go"@.len());
    assert("ucinewgame"@.len() != "stop"@.len());
    assert("ucinewgame"@.len() != "ponderhit"@.len());
    assert("ucinewgame"@.len() != "quit"@.len());
    assert("ucinewgame"@.len() != "d"@.len());
    assert("ucinewgame"@.len() != "board"@.len());
    assert("ucinewgame"@.len() != "eval"@.len());
    assert("ucinewgame"@.len() != "perft"@.len());
    assert("setoption"@.len() != "position"@.len());
    assert("setoption"@.len() != "go"@.len());
    assert("setoption"@.len() != "stop"@.len());
    assert("setoption"@[0] != "ponderhit"@[0]);
    assert("setoption"@.len() != "quit"@.len());
    assert("setoption"@.len() != "d"@.len());
    assert("setoption"@.len() != "board"@.len());
    assert("setoption"@.len() != "eval"@.len());
    assert("setoption"@.len() != "perft"@.len());
    assert("position"@.len() != "go"@.len());
    assert("position"@.len() != "stop"@.len());
    assert("position"@.len() != "ponderhit"@.len());
    assert("position"@.len() != "quit"@.len());
    assert("position"@.len() != "d"@.len());
    assert("position"@.len() != "board"@.len());
    assert("position"@.len() != "eval"@.len());
    assert("position"@.len() != "perft"@.len());
    assert("go"@.len() != "stop"@.len());
    assert("go"@.len() != "ponderhit"@.len());
    assert("go"@.len() != "quit"@.len());
    assert("go"@.len() != "d"@.len());
    assert("go"@.len() != "board"@.len());
    assert("go"@.len() != "eval"@.len());
    assert("go"@.len() != "perft"@.len());
    assert("stop"@.len() != "ponderhit"@.len());
    assert("stop"@[0] != "quit"@[0]);
    assert("stop"@.len() != "d"@.len());
    assert("stop"@.len() != "board"@.len());
    assert("stop"@[0] != "eval"@[0]);
    assert("stop"@.len() != "perft"@.len());
    assert("ponderhit"@.len() != "quit"@.len());
    assert("ponderhit"@.len() != "d"@.len());
    assert("ponderhit"@.len() != "board"@.len());
    assert("ponderhit"@.len() != "eval"@.len());
    assert("ponderhit"@.len() != "perft"@.len());
    assert("quit"@.len() != "d"@.len());
    assert("quit"@.len() != "board"@.len());
    assert("quit"@[0] != "eval"@[0]);
    assert("quit"@.len() != "perft"@.len());
    assert("d"@.len() != "board"@.len());
    assert("d"@.len() != "eval"@.len());
    assert("d"@.len() != "perft"@.len());
    assert("board"@.len() != "eval"@.len());
    assert("board"@[0] != "perft"@[0]);
    assert("eval"@.len() != "perft"@.len());
}

/// No two options have the same name.
proof fn lemma_options_differ()
    ensures
        "hash"@ != "opponent model"@,
        "hash"@ != "opponent moves"@,
        "hash"@ != "own moves"@,
        "hash"@ != "opportunity bonus"@,
        "hash"@ != "draw penalty"@,
        "hash"@ != "malice"@,
        "hash"@ != "depth timeout"@,
        "hash"@ != "move overhead"@,
        "hash"@ != "clear hash"@,
        "opponent model"@ != "opponent moves"@,
        "opponent model"@ != "own moves"@,
        "opponent model"@ != "opportunity bonus"@,
        "opponent model"@ != "draw penalty"@,
        "opponent model"@ != "malice"@,
        "opponent model"@ != "depth timeout"@,
        "opponent model"@ != "move overhead"@,
        "opponent model"@ != "clear hash"@,
        "opponent moves"@ != "own moves"@,
        "opponent moves"@ != "opportunity bonus"@,
        "opponent moves"@ != "draw penalty"@,
        "opponent moves"@ != "malice"@,
        "opponent moves"@ != "depth timeout"@,
        "opponent moves"@ != "move overhead"@,
        "opponent moves"@ != "clear hash"@,
        "own moves"@ != "opportunity bonus"@,
        "own moves"@ != "draw penalty"@,
        "own moves"@ != "malice"@,
        "own moves"@ != "depth timeout"@,
        "own moves"@ != "move overhead"@,
        "own moves"@ != "clear hash"@,
        "opportunity bonus"@ != "draw penalty"@,
        "opportunity bonus"@ != "malice"@,
        "opportunity bonus"@ != "depth timeout"@,
        "opportunity bonus"@ != "move overhead"@,
        "opportunity bonus"@ != "clear hash"@,
        "draw penalty"@ != "malice"@,
        "draw penalty"@ != "depth timeout"@,
        "draw penalty"@ != "move overhead"@,
        "draw penalty"@ != "clear hash"@,
        "malice"@ != "depth timeout"@,
        "malice"@ != "move overhead"@,
        "malice"@ != "clear hash"@,
        "depth timeout"@ != "move overhead"@,
        "depth timeout"@ != "clear hash"@,
        "move overhead"@ != "clear hash"@,
{
    reveal_strlit("hash");
    reveal_strlit("opponent model");
    reveal_strlit("opponent moves");
    reveal_strlit("own moves");
    reveal_strlit("opportunity bonus");
    reveal_strlit("draw penalty");
    reveal_strlit("malice");
    reveal_strlit("depth timeout");
    reveal_strlit("move overhead");
    reveal_strlit("clear hash");
    assert("hash"@.len() != "opponent model"@.len());
    assert("hash"@.len() != "opponent moves"@.len());
    assert("hash"@.len() != "own moves"@.len());
    assert("hash"@.len() != "opportunity bonus"@.len());
    assert("hash"@.len() != "draw penalty"@.len());
    assert("hash"@.len() != "malice"@.len());
    assert("hash"@.len() != "depth timeout"@.len());
    assert("hash"@.len() != "move overhead"@.len());
    assert("hash"@.len() != "clear hash"@.len());
    assert("opponent model"@[11] != "opponent moves"@[11]);
    assert("opponent model"@.len() != "own moves"@.len());
    assert("opponent model"@.len() != "opportunity bonus"@.len());
    assert("opponent model"@.len() != "draw penalty"@.len());
    assert("opponent model"@.len() != "malice"@.len());
    assert("opponent model"@.len() != "depth timeout"@.len());
    assert("opponent model"@.len() != "move overhead"@.len());
    assert("opponent model"@.len() != "clear hash"@.len());
    assert("opponent moves"@.len() != "own moves"@.len());
    assert("opponent moves"@.len() != "opportunity bonus"@.len());
    assert("opponent moves"@.len() != "draw penalty"@.len());
    assert("opponent moves"@.len() != "malice"@.len());
    assert("opponent moves"@.len() != "depth timeout"@.len());
    assert("opponent moves"@.len() != "move overhead"@.len());
    assert("opponent moves"@.len() != "clear hash"@.len());
    assert("own moves"@.len() != "opportunity bonus"@.len());
    assert("own moves"@.len() != "draw penalty"@.len());
    assert("own moves"@.len() != "malice"@.len());
    assert("own moves"@.len() != "depth timeout"@.len());
    assert("own moves"@.len() != "move overhead"@.len());
    assert("own moves"@.len() != "clear hash"@.len());
    assert("opportunity bonus"@.len() != "draw penalty"@.len());
    assert("opportunity bonus"@.len() != "malice"@.len());
    assert("opportunity bonus"@.len() != "depth timeout"@.len());
    assert("opportunity bonus"@.len() != "move overhead"@.len());
    assert("opportunity bonus"@.len() != "clear hash"@.len());
    assert("draw penalty"@.len() != "malice"@.len());
    assert("draw penalty"@.len() != "depth timeout"@.len());
    assert("draw penalty"@.len() != "move overhead"@.len());
    assert("draw penalty"@.len() != "clear hash"@.len());
    assert("malice"@.len() != "depth timeout"@.len());
    assert("malice"@.len() != "move overhead"@.len());
    assert("malice"@.len() != "clear hash"@.len());
    assert("depth timeout"@[0] != "move overhead"@[0]);
    assert("depth timeout"@.len() != "clear hash"@.len());
    assert("move overhead"@.len() != "clear hash"@.len());
}

/// No two keywords of `go` are the same word.
proof fn lemma_keywords_differ()
    ensures
        "depth"@ != "nodes"@,
        "depth"@ != "movetime"@,
        "depth"@ != "wtime"@,
        "depth"@ != "btime"@,
        "depth"@ != "winc"@,
        "depth"@ != "binc"@,
        "depth"@ != "movestogo"@,
        "depth"@ != "infinite"@,
        "depth"@ != "searchmoves"@,
        "nodes"@ != "movetime"@,
        "nodes"@ != "wtime"@,
        "nodes"@ != "btime"@,
        "nodes"@ != "winc"@,
        "nodes"@ != "binc"@,
        "nodes"@ != "movestogo"@,
        "nodes"@ != "infinite"@,
        "nodes"@ != "searchmoves"@,
        "movetime"@ != "wtime"@,
        "movetime"@ != "btime"@,
        "movetime"@ != "winc"@,
        "movetime"@ != "binc"@,
        "movetime"@ != "movestogo"@,
        "movetime"@ != "infinite"@,
        "movetime"@ != "searchmoves"@,
        "wtime"@ != "btime"@,
        "wtime"@ != "winc"@,
        "wtime"@ != "binc"@,
        "wtime"@ != "movestogo"@,
        "wtime"@ != "infinite"@,
        "wtime"@ != "searchmoves"@,
        "btime"@ != "winc"@,
        "btime"@ != "binc"@,
        "btime"@ != "movestogo"@,
        "btime"@ != "infinite"@,
        "btime"@ != "searchmoves"@,
        "winc"@ != "binc"@,
        "winc"@ != "movestogo"@,
        "winc"@ != "infinite"@,
        "winc"@ != "searchmoves"@,
        "binc"@ != "movestogo"@,
        "binc"@ != "infinite"@,
        "binc"@ != "searchmoves"@,
        "movestogo"@ != "infinite"@,
        "movestogo"@ != "searchmoves"@,
        "infinite"@ != "searchmoves"@,
{
    reveal_strlit("depth");
    reveal_strlit("nodes");
    reveal_strlit("movetime");
    reveal_strlit("wtime");
    reveal_strlit("btime");
    reveal_strlit("winc");
    reveal_strlit("binc");
    reveal_strlit("movestogo");
    reveal_strlit("infinite");
    reveal_strlit("searchmoves");
    assert("depth"@[0] != "nodes"@[0]);
    assert("depth"@.len() != "movetime"@.len());
    assert("depth"@[0] != "wtime"@[0]);
    assert("depth"@[0] != "btime"@[0]);
    assert("depth"@.len() != "winc"@.len());
    assert("depth"@.len() != "binc"@.len());
    assert("depth"@.len() != "movestogo"@.len());
    assert("depth"@.len() != "infinite"@.len());
    assert("depth"@.len() != "searchmoves"@.len());
    assert("nodes"@.len() != "movetime"@.len());
    assert("nodes"@[0] != "wtime"@[0]);
    assert("nodes"@[0] != "btime"@[0]);
    assert("nodes"@.len() != "winc"@.len());
    assert("nodes"@.len() != "binc"@.len());
    assert("nodes"@.len() != "movestogo"@.len());
    assert("nodes"@.len() != "infinite"@.len());
    assert("nodes"@.len() != "searchmoves"@.len());
    assert("movetime"@.len() != "wtime"@.len());
    assert("movetime"@.len() != "btime"@.len());
    assert("movetime"@.len() != "winc"@.len());
    assert("movetime"@.len() != "binc"@.len());
    assert("movetime"@.len() != "movestogo"@.len());
    assert("movetime"@[0] != "infinite"@[0]);
    assert("movetime"@.len() != "searchmoves"@.len());
    assert("wtime"@[0] != "btime"@[0]);
    assert("wtime"@.len() != "winc"@.len());
    assert("wtime"@.len() != "binc"@.len());
    assert("wtime"@.len() != "movestogo"@.len());
    assert("wtime"@.len() != "infinite"@.len());
    assert("wtime"@.len() != "searchmoves"@.len());
    assert("btime"@.len() != "winc"@.len());
    assert("btime"@.len() != "binc"@.len());
    assert("btime"@.len() != "movestogo"@.len());
    assert("btime"@.len() != "infinite"@.len());
    assert("btime"@.len() != "searchmoves"@.len());
    assert("winc"@[0] != "binc"@[0]);
    assert("winc"@.len() != "movestogo"@.len());
    assert("winc"@.len() != "infinite"@.len());
    assert("winc"@.len() != "searchmoves"@.len());
    assert("binc"@.len() != "movestogo"@.len());
    assert("binc"@.len() != "infinite"@.len());
    assert("binc"@.len() != "searchmoves"@.len());
    assert("movestogo"@.len() != "infinite"@.len());
    assert("movestogo"@.len() != "searchmoves"@.len());
    assert("infinite"@.len() != "searchmoves"@.len());
}

/// The words of a `position` differ.
proof fn lemma_setups_differ()
    ensures
        "startpos"@ != "fen"@,
        "startpos"@ != "moves"@,
        "fen"@ != "moves"@,
{
    reveal_strlit("startpos");
    reveal_strlit("fen");
    reveal_strlit("moves");
    assert("startpos"@.len() != "fen"@.len());
    assert("startpos"@.len() != "moves"@.len());
    assert("fen"@.len() != "moves"@.len());
}

/// Words that do not hold a word are searched in vain.
proof fn lemma_first_none(words: Seq<Seq<char>>, word: Seq<char>, from: nat)
    requires
        forall|i: int| from <= i < words.len() ==> #[trigger] words[i] != word,
    ensures
        text::first(words, word, from) is None,
    decreases words.len() - from,
{
    if from < words.len() {
        lemma_first_none(words, word, from + 1);
    }
}

/// A word is found where it first stands.
proof fn lemma_first_at(words: Seq<Seq<char>>, word: Seq<char>, from: nat, at: nat)
    requires
        from <= at < words.len(),
        words[at as int] == word,
        forall|i: int| from <= i < at ==> #[trigger] words[i] != word,
    ensures
        text::first(words, word, from) == Some(at),
    decreases at - from,
{
    if from < at {
        lemma_first_at(words, word, from + 1, at);
    }
}

/// A line that begins with a command is that command with the words after it.
proof fn lemma_line(desk: Desk, line: Seq<char>, command: Seq<char>, rest: Seq<Seq<char>>)
    requires
        text::words(line) == seq![command] + rest,
        protocol::commands(command),
    ensures
        protocol::handled(desk, line) == protocol::carried_out(desk, command, rest),
{
    let words = text::words(line);
    assert(words[0] == command);
    assert(words.skip(1) =~= rest);
    assert(protocol::command_at(words, 0) == Some(0nat));
}

/// The position after the first `n` moves of a list, each played where the one before
/// it led.
pub open spec fn walk(position: Position, moves: Seq<Seq<char>>, n: nat) -> Position
    decreases n,
{
    if n == 0 {
        position
    } else {
        let here = walk(position, moves, (n - 1) as nat);
        match game::uci_outcome(here, moves[n - 1]) {
            Ok(m) => rules::after(here, m),
            Err(refusal) => here,
        }
    }
}

/// Whether the first `n` moves of a list can be played one after the other.
pub open spec fn walkable(position: Position, moves: Seq<Seq<char>>, n: nat) -> bool {
    forall|i: nat|
        i < n ==> game::uci_outcome(#[trigger] walk(position, moves, i), moves[i as int]) is Ok
}

/// The key of every position on the way, from the first on.
pub open spec fn footprints(position: Position, moves: Seq<Seq<char>>, n: nat) -> Seq<u64> {
    Seq::new(n + 1, |i: int| game::hash(walk(position, moves, i as nat)))
}

/// Moves that can be played lead where they lead, and leave their footprints.
proof fn lemma_walk(
    first: Position,
    words: Seq<Seq<char>>,
    from: nat,
    moves: Seq<Seq<char>>,
    n: nat,
)
    requires
        from + moves.len() == words.len(),
        forall|i: int| 0 <= i < moves.len() ==> words[from + i] == #[trigger] moves[i],
        n <= moves.len(),
        walkable(first, moves, n),
    ensures
        protocol::moves_played(first, seq![game::hash(first)], words, from)
            == protocol::moves_played(
            walk(first, moves, n),
            footprints(first, moves, n),
            words,
            from + n,
        ),
    decreases n,
{
    if n == 0 {
        assert(footprints(first, moves, 0) =~= seq![game::hash(first)]);
    } else {
        let before = (n - 1) as nat;
        assert(walkable(first, moves, before));
        lemma_walk(first, words, from, moves, before);
        let here = walk(first, moves, before);
        assert(game::uci_outcome(here, moves[before as int]) is Ok);
        assert(words[(from + before) as int] == moves[before as int]);
        assert(footprints(first, moves, before).push(game::hash(walk(first, moves, n)))
            =~= footprints(first, moves, n));
    }
}

/// A `position` keeps the history of its moves. With `n` of them the game has `n + 1`
/// keys, the first that of the position set up and each after it that of the position
/// one move further on; and the game stands where the last move leads.
pub proof fn law_a_position_keeps_its_history(
    desk: Desk,
    line: Seq<char>,
    setup: Seq<Seq<char>>,
    moves: Seq<Seq<char>>,
    first: Position,
)
    requires
        text::words(line) == seq!["position"@] + (setup + seq!["moves"@] + moves),
        forall|i: int| 0 <= i < setup.len() ==> #[trigger] setup[i] != "moves"@,
        setup.len() > 0,
        setup[0] == "startpos"@ && first == position::starting() || setup[0] == "fen"@
            && game::fen_outcome(text::joined(setup.skip(1))) == Ok::<Position, Refusal>(first),
        walkable(first, moves, moves.len()),
    ensures
        ({
            let after = protocol::handled(desk, line).0;
            &&& after.trail.len() == moves.len() + 1
            &&& forall|i: int|
                0 <= i <= moves.len() ==> #[trigger] after.trail[i] == game::hash(
                    walk(first, moves, i as nat),
                )
            &&& after.position == walk(first, moves, moves.len())
            &&& after == (Desk { position: after.position, trail: after.trail, ..desk })
        }),
        protocol::handled(desk, line).1.lines.len() == 0,
        protocol::handled(desk, line).1.finish,
        protocol::handled(desk, line).1.flow == Flow::Continue,
        protocol::handled(desk, line).1.deed is Nothing,
{
    reveal(protocol::carried_out);
    lemma_commands_differ();
    lemma_setups_differ();
    let words = setup + seq!["moves"@] + moves;
    lemma_line(desk, line, "position"@, words);
    let at = setup.len();
    assert(words[at as int] == "moves"@);
    assert forall|i: int| 0 <= i < at implies #[trigger] words[i] != "moves"@ by {
        assert(words[i] == setup[i]);
    }
    lemma_first_at(words, "moves"@, 0, at);
    assert(words.take(at as int) =~= setup);
    assert forall|i: int| 0 <= i < moves.len() implies words[at + 1 + i] == #[trigger] moves[i] by {}
    lemma_walk(first, words, at + 1, moves, moves.len());
    assert(protocol::set_up(setup) == Ok::<Position, Seq<Seq<char>>>(first));
}

/// A `position` without moves is the position that it sets up, with no history behind
/// it.
pub proof fn law_a_position_without_moves_has_no_history(
    desk: Desk,
    line: Seq<char>,
    setup: Seq<Seq<char>>,
    first: Position,
)
    requires
        text::words(line) == seq!["position"@] + setup,
        forall|i: int| 0 <= i < setup.len() ==> #[trigger] setup[i] != "moves"@,
        setup.len() > 0,
        setup[0] == "startpos"@ && first == position::starting() || setup[0] == "fen"@
            && game::fen_outcome(text::joined(setup.skip(1))) == Ok::<Position, Refusal>(first),
    ensures
        protocol::handled(desk, line).0 == (Desk {
            position: first,
            trail: seq![game::hash(first)],
            ..desk
        }),
        protocol::handled(desk, line).1.lines.len() == 0,
{
    reveal(protocol::carried_out);
    lemma_commands_differ();
    lemma_setups_differ();
    lemma_line(desk, line, "position"@, setup);
    lemma_first_none(setup, "moves"@, 0);
}

/// A `position` with a move that cannot be played is refused: the game stays as it
/// was, and the client is told which move it was and why.
pub proof fn law_a_position_with_a_bad_move_is_refused(
    desk: Desk,
    line: Seq<char>,
    setup: Seq<Seq<char>>,
    moves: Seq<Seq<char>>,
    first: Position,
    n: nat,
    refusal: Refusal,
)
    requires
        text::words(line) == seq!["position"@] + (setup + seq!["moves"@] + moves),
        forall|i: int| 0 <= i < setup.len() ==> #[trigger] setup[i] != "moves"@,
        setup.len() > 0,
        setup[0] == "startpos"@ && first == position::starting() || setup[0] == "fen"@
            && game::fen_outcome(text::joined(setup.skip(1))) == Ok::<Position, Refusal>(first),
        n < moves.len(),
        walkable(first, moves, n),
        game::uci_outcome(walk(first, moves, n), moves[n as int]) == Err::<Move, Refusal>(refusal),
    ensures
        protocol::handled(desk, line).0 == desk,
        protocol::handled(desk, line).1.lines == seq![
            "info string "@ + moves[n as int] + ": "@ + refusal.text(),
        ],
{
    reveal(protocol::carried_out);
    lemma_commands_differ();
    lemma_setups_differ();
    let words = setup + seq!["moves"@] + moves;
    lemma_line(desk, line, "position"@, words);
    let at = setup.len();
    assert(words[at as int] == "moves"@);
    assert forall|i: int| 0 <= i < at implies #[trigger] words[i] != "moves"@ by {
        assert(words[i] == setup[i]);
    }
    lemma_first_at(words, "moves"@, 0, at);
    assert(words.take(at as int) =~= setup);
    assert forall|i: int| 0 <= i < moves.len() implies words[at + 1 + i] == #[trigger] moves[i] by {}
    lemma_walk(first, words, at + 1, moves, n);
    assert(words[(at + 1 + n) as int] == moves[n as int]);
    assert(protocol::set_up(setup) == Ok::<Position, Seq<Seq<char>>>(first));
}

/// A FEN that cannot be read or played is refused: the game stays as it was, and the
/// client is told why.
pub proof fn law_a_bad_fen_is_refused(
    desk: Desk,
    line: Seq<char>,
    fen: Seq<Seq<char>>,
    refusal: Refusal,
)
    requires
        text::words(line) == seq!["position"@] + (seq!["fen"@] + fen),
        forall|i: int| 0 <= i < fen.len() ==> #[trigger] fen[i] != "moves"@,
        game::fen_outcome(text::joined(fen)) == Err::<Position, Refusal>(refusal),
    ensures
        protocol::handled(desk, line).0 == desk,
        protocol::handled(desk, line).1.lines == seq!["info string "@ + refusal.text()],
{
    reveal(protocol::carried_out);
    lemma_commands_differ();
    lemma_setups_differ();
    let words = seq!["fen"@] + fen;
    lemma_line(desk, line, "position"@, words);
    assert forall|i: int| 0 <= i < words.len() implies #[trigger] words[i] != "moves"@ by {
        if i > 0 {
            assert(words[i] == fen[i - 1]);
        }
    }
    lemma_first_none(words, "moves"@, 0);
    assert(words.skip(1) =~= fen);
}

/// What `eval` prints is the score that a GUI expects: the sabotage with its sign
/// turned round, so that the two numbers add up to nothing and a player who is losing
/// reads a negative one.
pub proof fn law_eval_prints_the_score_of_a_gui(desk: Desk, line: Seq<char>, rest: Seq<Seq<char>>)
    requires
        text::words(line) == seq!["eval"@] + rest,
    ensures
        protocol::handled(desk, line).0 == desk,
        ({
            let turn = desk.position.turn;
            let sabotage = eval::evaluation(desk.position, turn, desk.options.weights);
            let lines = protocol::handled(desk, line).1.lines;
            let head = "sabotage "@ + text::signed(sabotage);
            &&& lines.len() == 2
            &&& lines[0].len() >= head.len() && lines[0].take(head.len() as int) == head
            &&& lines[1] == "score cp "@ + text::signed(-sabotage)
            &&& text::integer(lines[1].skip(9)) == Some(-sabotage)
            &&& sabotage > 0 ==> lines[1][9] == '-'
            &&& -29_872 < sabotage < 29_872 ==> lines[1] == "score "@ + score::shown(
                100,
                sabotage,
            ).text()
        }),
{
    reveal(protocol::carried_out);
    lemma_commands_differ();
    lemma_line(desk, line, "eval"@, rest);
    let turn = desk.position.turn;
    let sabotage = eval::evaluation(desk.position, turn, desk.options.weights);
    let lines = protocol::handled(desk, line).1.lines;
    let head = "sabotage "@ + text::signed(sabotage);
    assert(lines[0].take(head.len() as int) =~= head);
    reveal_strlit("score cp ");
    reveal_strlit("score ");
    reveal_strlit("cp ");
    assert(lines[1].skip(9) =~= text::signed(-sabotage));
    if sabotage > 0 {
        text::law_what_is_written_is_read(sabotage as nat);
        assert(text::signed(-sabotage)[0] == '-');
    } else {
        text::law_what_is_written_is_read((-sabotage) as nat);
    }
    assert("score cp "@ =~= "score "@ + "cp "@);
    assert(lines[1] =~= "score "@ + ("cp "@ + text::signed(-sabotage)));
}

/// `perft` counts the ways to play so many moves, as far as 64 bits can count, and
/// asks for a depth where none is given.
pub proof fn law_perft_counts_the_ways_to_play(
    desk: Desk,
    line: Seq<char>,
    depth: nat,
    rest: Seq<Seq<char>>,
)
    requires
        text::words(line) == seq!["perft"@] + rest,
        depth <= u32::MAX,
        rest.len() == 0 || rest[0] == text::decimal(depth),
    ensures
        protocol::handled(desk, line).0 == desk,
        rest.len() == 0 ==> protocol::handled(desk, line).1.lines == seq![
            "info string perft needs a depth"@,
        ],
        rest.len() > 0 && position::leaves(desk.position, depth) <= u64::MAX ==> protocol::handled(
            desk,
            line,
        ).1.lines == seq!["nodes "@ + text::decimal(position::leaves(desk.position, depth))],
{
    reveal(protocol::carried_out);
    lemma_commands_differ();
    lemma_line(desk, line, "perft"@, rest);
    text::law_what_is_written_is_read(depth);
    let n = position::leaves(desk.position, depth);
    if n <= u64::MAX {
        assert(n % 0x1_0000_0000_0000_0000 == n);
    }
}

/// `d` and `board` show the board from the eighth rank down to the first, the FEN of
/// the position, and its key.
pub proof fn law_the_board_is_shown(desk: Desk, line: Seq<char>, rest: Seq<Seq<char>>)
    requires
        text::words(line) == seq!["d"@] + rest || text::words(line) == seq!["board"@] + rest,
    ensures
        protocol::handled(desk, line).0 == desk,
        ({
            let lines = protocol::handled(desk, line).1.lines;
            &&& lines.len() == 11
            &&& forall|i: int|
                0 <= i < 8 ==> #[trigger] lines[i] == game::row(desk.position, 7 - i)
            &&& lines[8] == "  a b c d e f g h"@
            &&& lines[9] == "fen "@ + rules::fen_text(desk.position)
            &&& lines[10] == "key "@ + text::hex(game::hash(desk.position) as nat, 16)
        }),
{
    reveal(protocol::carried_out);
    lemma_commands_differ();
    if text::words(line) == seq!["d"@] + rest {
        lemma_line(desk, line, "d"@, rest);
    } else {
        lemma_line(desk, line, "board"@, rest);
    }
}

/// Whether a reply says nothing and does nothing, and the session goes on.
pub open spec fn is_silent(response: Response) -> bool {
    response.lines.len() == 0 && response.deed is Nothing && response.flow == Flow::Continue
}

/// What the commands without a grammar of their own do. `isready` is answered at once
/// and `debug` is on unless it is `off`; neither ends a search. `ucinewgame` starts a
/// new game and has everything forgotten, and `stop` ends the search; `ponderhit` is
/// ignored, and `quit` ends the session.
pub proof fn law_what_the_plain_commands_do(
    desk: Desk,
    line: Seq<char>,
    command: Seq<char>,
    rest: Seq<Seq<char>>,
)
    requires
        text::words(line) == seq![command] + rest,
    ensures
        ({
            let (after, response) = protocol::handled(desk, line);
            &&& command == "isready"@ ==> after == desk && !response.finish && response.lines == seq![
                "readyok"@,
            ] && response.deed is Nothing && response.flow == Flow::Continue
            &&& command == "debug"@ ==> is_silent(response) && !response.finish && after == (Desk {
                debug: !(rest.len() > 0 && rest[0] == "off"@),
                ..desk
            })
            &&& command == "ucinewgame"@ ==> response.finish && response.deed is Clear
                && response.lines.len() == 0 && after == (Desk {
                position: position::starting(),
                trail: seq![game::hash(position::starting())],
                ..desk
            })
            &&& command == "stop"@ ==> after == desk && response.finish && is_silent(response)
            &&& command == "ponderhit"@ ==> after == desk && !response.finish && is_silent(response)
            &&& command == "quit"@ ==> after == desk && response.flow == Flow::Quit
                && response.lines.len() == 0 && response.deed is Nothing
            &&& command == "uci"@ ==> after == desk && response.lines == protocol::introduction(
                desk.options,
            ) && response.deed is Nothing && !response.finish
        }),
{
    reveal(protocol::carried_out);
    lemma_commands_differ();
    if protocol::commands(command) {
        lemma_line(desk, line, command, rest);
    }
}

/// The engine introduces itself with its name and author, then its options with what
/// they are set to and the ranges that they are kept in, and then it is done.
pub proof fn law_the_introduction_lists_the_options(options: Options)
    ensures
        ({
            let lines = protocol::introduction(options);
            &&& lines.len() == 13
            &&& lines[0] == "id name "@ + ENGINE_NAME@
            &&& lines[1] == "id author "@ + ENGINE_AUTHOR@
            &&& lines[2] == "option name Hash type spin default "@ + text::signed(
                options.hash_mb as int,
            ) + " min 1 max 4096"@
            &&& lines[3] == "option name Opponent Model type combo default "@ + (match options.model {
                OpponentModel::Optimistic => "Optimistic"@,
                OpponentModel::Paranoid => "Paranoid"@,
            }) + " var Optimistic var Paranoid"@
            &&& lines[4] == "option name Opponent Moves type spin default "@ + text::signed(
                options.opponent_moves as int,
            ) + " min 1 max 64"@
            &&& lines[5] == "option name Own Moves type spin default "@ + text::signed(
                options.own_moves as int,
            ) + " min 1 max 218"@
            &&& lines[6] == "option name Opportunity Bonus type spin default "@ + text::signed(
                options.opportunity_bonus as int,
            ) + " min 0 max 30000"@
            &&& lines[7] == "option name Draw Penalty type spin default "@ + text::signed(
                options.draw_penalty as int,
            ) + " min 0 max 1000"@
            &&& lines[8] == "option name Malice type spin default "@ + text::signed(
                options.malice as int,
            ) + " min 0 max 100"@
            &&& lines[12] == "uciok"@
        }),
{
    let lines = protocol::introduction(options);
    reveal_strlit("option name ");
    reveal_strlit(" type spin default ");
    reveal_strlit("Hash");
    reveal_strlit("option name Hash type spin default ");
    assert("option name "@ + "Hash"@ + " type spin default "@
        =~= "option name Hash type spin default "@);
    reveal_strlit("Opponent Moves");
    reveal_strlit("option name Opponent Moves type spin default ");
    assert("option name "@ + "Opponent Moves"@ + " type spin default "@
        =~= "option name Opponent Moves type spin default "@);
    reveal_strlit("Own Moves");
    reveal_strlit("option name Own Moves type spin default ");
    assert("option name "@ + "Own Moves"@ + " type spin default "@
        =~= "option name Own Moves type spin default "@);
    reveal_strlit("Opportunity Bonus");
    reveal_strlit("option name Opportunity Bonus type spin default ");
    assert("option name "@ + "Opportunity Bonus"@ + " type spin default "@
        =~= "option name Opportunity Bonus type spin default "@);
    reveal_strlit("Draw Penalty");
    reveal_strlit("option name Draw Penalty type spin default ");
    assert("option name "@ + "Draw Penalty"@ + " type spin default "@
        =~= "option name Draw Penalty type spin default "@);
    reveal_strlit("Malice");
    reveal_strlit("option name Malice type spin default ");
    assert("option name "@ + "Malice"@ + " type spin default "@
        =~= "option name Malice type spin default "@);
    reveal_strlit(" var ");
    reveal_strlit("Optimistic");
    reveal_strlit("Paranoid");
    reveal_strlit(" var Optimistic var Paranoid");
    assert(lines[3] =~= "option name Opponent Model type combo default "@ + (match options.model {
        OpponentModel::Optimistic => "Optimistic"@,
        OpponentModel::Paranoid => "Paranoid"@,
    }) + " var Optimistic var Paranoid"@);
}

/// `setoption` sets the option that the words between `name` and `value` name, in
/// whatever case, to what the words after `value` say.
pub proof fn law_an_option_is_set_by_name(
    desk: Desk,
    line: Seq<char>,
    name: Seq<Seq<char>>,
    value: Seq<Seq<char>>,
)
    requires
        text::words(line) == seq!["setoption"@] + (seq!["name"@] + name + seq!["value"@] + value),
        forall|i: int| 0 <= i < name.len() ==> #[trigger] name[i] != "value"@,
    ensures
        protocol::handled(desk, line) == protocol::adjusted(
            desk,
            text::lowered(text::joined(name)),
            text::joined(value),
        ),
{
    reveal(protocol::carried_out);
    lemma_commands_differ();
    reveal_strlit("name");
    reveal_strlit("value");
    assert("name"@.len() != "value"@.len());
    let words = seq!["name"@] + name + seq!["value"@] + value;
    lemma_line(desk, line, "setoption"@, words);
    let at = 1 + name.len();
    assert(words[0] == "name"@);
    assert(words[at as int] == "value"@);
    assert forall|i: int| 0 <= i < at implies #[trigger] words[i] != "value"@ by {
        if i > 0 {
            assert(words[i] == name[i - 1]);
        }
    }
    lemma_first_at(words, "name"@, 0, 0);
    lemma_first_at(words, "value"@, 0, at);
    assert(words.subrange(1, at as int) =~= name);
    assert(words.skip(at as int + 1) =~= value);
}

/// A button is pressed by its name alone.
pub proof fn law_a_button_needs_no_value(desk: Desk, line: Seq<char>, name: Seq<Seq<char>>)
    requires
        text::words(line) == seq!["setoption"@] + (seq!["name"@] + name),
        forall|i: int| 0 <= i < name.len() ==> #[trigger] name[i] != "value"@,
        text::lowered(text::joined(name)) == "clear hash"@,
    ensures
        protocol::handled(desk, line).0 == desk,
        protocol::handled(desk, line).1.deed is Clear,
        protocol::handled(desk, line).1.finish,
        protocol::handled(desk, line).1.lines.len() == 0,
{
    reveal(protocol::carried_out);
    lemma_commands_differ();
    lemma_options_differ();
    reveal_strlit("name");
    reveal_strlit("value");
    assert("name"@.len() != "value"@.len());
    let words = seq!["name"@] + name;
    lemma_line(desk, line, "setoption"@, words);
    assert(words[0] == "name"@);
    assert forall|i: int| 0 <= i < words.len() implies #[trigger] words[i] != "value"@ by {
        if i > 0 {
            assert(words[i] == name[i - 1]);
        }
    }
    lemma_first_at(words, "name"@, 0, 0);
    lemma_first_none(words, "value"@, 0);
    assert(words.subrange(1, words.len() as int) =~= name);
}

/// A number as far as a range allows.
pub open spec fn kept_within(set: int, asked: int, least: int, most: int) -> bool {
    &&& least <= set <= most
    &&& least <= asked <= most ==> set == asked
    &&& asked < least ==> set == least
    &&& asked > most ==> set == most
}

/// An option that counts something takes the number that is written, as far as its
/// range allows. Setting one leaves the others alone, and only the size of the table
/// takes more than telling the engine.
pub proof fn law_counts_are_set_as_written(desk: Desk, n: nat)
    requires
        n <= usize::MAX,
    ensures
        ({
            let (after, response) = protocol::adjusted(desk, "hash"@, text::decimal(n));
            &&& kept_within(after.options.hash_mb as int, n as int, 1, 4096)
            &&& after == (Desk {
                options: Options { hash_mb: after.options.hash_mb, ..desk.options },
                ..desk
            })
            &&& response.deed is Resize && response.finish && response.lines.len() == 0
        }),
        ({
            let (after, response) = protocol::adjusted(desk, "opponent moves"@, text::decimal(n));
            &&& kept_within(after.options.opponent_moves as int, n as int, 1, 64)
            &&& after == (Desk {
                options: Options { opponent_moves: after.options.opponent_moves, ..desk.options },
                ..desk
            })
            &&& response.deed is Configure && response.finish && response.lines.len() == 0
        }),
        ({
            let (after, response) = protocol::adjusted(desk, "own moves"@, text::decimal(n));
            &&& kept_within(after.options.own_moves as int, n as int, 1, 218)
            &&& after == (Desk {
                options: Options { own_moves: after.options.own_moves, ..desk.options },
                ..desk
            })
            &&& response.deed is Configure && response.finish && response.lines.len() == 0
        }),
{
    lemma_options_differ();
    text::law_what_is_written_is_read(n);
}

/// An option that weighs something takes the number that is written, with its sign,
/// as far as its range allows. Setting one leaves the others alone.
pub proof fn law_weights_are_set_as_written(desk: Desk, n: int)
    requires
        i32::MIN <= n <= i32::MAX,
    ensures
        ({
            let (after, response) = protocol::adjusted(desk, "opportunity bonus"@, text::signed(n));
            &&& kept_within(after.options.opportunity_bonus as int, n, 0, 30_000)
            &&& after == (Desk {
                options: Options {
                    opportunity_bonus: after.options.opportunity_bonus,
                    ..desk.options
                },
                ..desk
            })
            &&& response.deed is Configure && response.finish && response.lines.len() == 0
        }),
        ({
            let (after, response) = protocol::adjusted(desk, "draw penalty"@, text::signed(n));
            &&& kept_within(after.options.draw_penalty as int, n, 0, 1000)
            &&& after == (Desk {
                options: Options { draw_penalty: after.options.draw_penalty, ..desk.options },
                ..desk
            })
            &&& response.deed is Configure && response.finish && response.lines.len() == 0
        }),
        ({
            let (after, response) = protocol::adjusted(desk, "malice"@, text::signed(n));
            &&& kept_within(after.options.malice as int, n, 0, 100)
            &&& after == (Desk {
                options: Options { malice: after.options.malice, ..desk.options },
                ..desk
            })
            &&& response.deed is Configure && response.finish && response.lines.len() == 0
        }),
{
    lemma_options_differ();
    if n < 0 {
        text::law_what_is_written_is_read((-n) as nat);
    } else {
        text::law_what_is_written_is_read(n as nat);
    }
}

/// The two times of a session are set in milliseconds, as far as their ranges allow,
/// and the engine is not told of them.
pub proof fn law_times_are_set_in_milliseconds(desk: Desk, n: nat)
    requires
        n <= u64::MAX,
    ensures
        ({
            let (after, response) = protocol::adjusted(desk, "depth timeout"@, text::decimal(n));
            &&& after.timeout % 1_000_000 == 0
            &&& kept_within(after.timeout as int / 1_000_000, n as int, 0, 600_000)
            &&& after == (Desk { timeout: after.timeout, ..desk })
            &&& response.deed is Nothing && response.finish && response.lines.len() == 0
        }),
        ({
            let (after, response) = protocol::adjusted(desk, "move overhead"@, text::decimal(n));
            &&& after.overhead % 1_000_000 == 0
            &&& kept_within(after.overhead as int / 1_000_000, n as int, 0, 5_000)
            &&& after == (Desk { overhead: after.overhead, ..desk })
            &&& response.deed is Nothing && response.finish && response.lines.len() == 0
        }),
{
    lemma_options_differ();
    text::law_what_is_written_is_read(n);
}

/// The opponent model is set by its name, and a name that stands for none is reported
/// and ignored. What is no number changes no option that takes one, and an option that
/// is not known changes nothing.
pub proof fn law_what_cannot_be_set_is_left_alone(desk: Desk, name: Seq<char>, value: Seq<char>)
    ensures
        name == "opponent model"@ ==> ({
            let (after, response) = protocol::adjusted(desk, name, value);
            match options::model_named(value) {
                Some(model) => after == (Desk {
                    options: Options { model, ..desk.options },
                    ..desk
                }) && response.deed is Configure && response.lines.len() == 0,
                None => after == desk && response.deed is Nothing && response.lines == seq![
                    "info string unknown opponent model "@ + text::quoted(
                        text::small_letters(value),
                    ),
                ],
            }
        }),
        text::integer(value) is None && name != "opponent model"@ && name != "clear hash"@
            ==> protocol::adjusted(desk, name, value).0 == desk && is_silent(
            protocol::adjusted(desk, name, value).1,
        ),
        name != "hash"@ && name != "opponent model"@ && name != "opponent moves"@ && name
            != "own moves"@ && name != "opportunity bonus"@ && name != "draw penalty"@ && name
            != "malice"@ && name != "depth timeout"@ && name != "move overhead"@ && name
            != "clear hash"@ ==> protocol::adjusted(desk, name, value).0 == desk && is_silent(
            protocol::adjusted(desk, name, value).1,
        ),
{
    lemma_options_differ();
    reveal_strlit("info string ");
    reveal_strlit("unknown opponent model ");
    reveal_strlit("info string unknown opponent model ");
    assert("info string "@ + "unknown opponent model "@
        =~= "info string unknown opponent model "@);
    let quoted = text::quoted(text::small_letters(value));
    assert("info string "@ + ("unknown opponent model "@ + quoted)
        =~= "info string unknown opponent model "@ + quoted);
    if text::integer(value) is None {
        assert(text::natural(value) is None);
    }
}

/// `go` starts a search with what its words ask for, and changes nothing else.
pub proof fn law_go_starts_a_search(desk: Desk, line: Seq<char>, rest: Seq<Seq<char>>)
    requires
        text::words(line) == seq!["go"@] + rest,
    ensures
        protocol::handled(desk, line).0 == desk,
        protocol::handled(desk, line).1.finish,
        protocol::handled(desk, line).1.lines.len() == 0,
        protocol::handled(desk, line).1.flow == Flow::Continue,
        protocol::handled(desk, line).1.deed == Deed::Search(protocol::requested(desk, rest)),
{
    reveal(protocol::carried_out);
    lemma_commands_differ();
    lemma_line(desk, line, "go"@, rest);
}

/// A number is none of the keywords.
proof fn lemma_number_is_no_keyword(n: nat)
    ensures
        text::decimal(n) != "depth"@,
        text::decimal(n) != "nodes"@,
        text::decimal(n) != "movetime"@,
        text::decimal(n) != "wtime"@,
        text::decimal(n) != "btime"@,
        text::decimal(n) != "winc"@,
        text::decimal(n) != "binc"@,
        text::decimal(n) != "movestogo"@,
        text::decimal(n) != "infinite"@,
        text::decimal(n) != "searchmoves"@,
{
    text::lemma_decimal(n);
    assert(text::is_digit(text::decimal(n)[0]));
    reveal_strlit("depth");
    reveal_strlit("nodes");
    reveal_strlit("movetime");
    reveal_strlit("wtime");
    reveal_strlit("btime");
    reveal_strlit("winc");
    reveal_strlit("binc");
    reveal_strlit("movestogo");
    reveal_strlit("infinite");
    reveal_strlit("searchmoves");
}

/// A keyword with its number at the end of a `go` adds to what the words before it
/// ask for.
proof fn lemma_go_words(
    position: Position,
    words: Seq<Seq<char>>,
    key: Seq<char>,
    n: nat,
    from: nat,
    r: Request,
)
    requires
        from <= words.len(),
        n <= u64::MAX,
        key != "searchmoves"@,
        text::natural(key) is None,
        forall|i: int| 0 <= i < words.len() ==> #[trigger] words[i] != "searchmoves"@,
    ensures
        protocol::go_words(position, words + seq![key, text::decimal(n)], from, r)
            == protocol::bounded(
            protocol::go_words(position, words, from, r),
            key,
            Some(n as u64),
        ),
    decreases words.len() - from,
{
    let all = words + seq![key, text::decimal(n)];
    if from < words.len() {
        assert(all[from as int] == words[from as int]);
        if from + 1 < words.len() {
            assert(all[from as int + 1] == words[from as int + 1]);
        } else {
            assert(all[from as int + 1] == key);
        }
        assert(protocol::number_at(all, from + 1) == protocol::number_at(words, from + 1));
        lemma_go_words(
            position,
            words,
            key,
            n,
            from + 1,
            protocol::bounded(r, words[from as int], protocol::number_at(words, from + 1)),
        );
    } else {
        text::law_what_is_written_is_read(n);
        lemma_number_is_no_keyword(n);
        assert(all[from as int] == key);
        assert(all[from as int + 1] == text::decimal(n));
        assert(protocol::number_at(all, from + 1) == Some(n as u64));
        let next = protocol::bounded(r, key, Some(n as u64));
        assert(protocol::number_at(all, from + 2) is None);
        assert(protocol::bounded(next, text::decimal(n), None) == next);
        assert(protocol::go_words(position, all, from + 2, next) == next);
        assert(protocol::go_words(position, all, from + 1, next) == next);
    }
}

/// What the words of a `go` ask for before anything is filled in.
pub open spec fn asked_for(desk: Desk, words: Seq<Seq<char>>) -> Request {
    protocol::go_words(desk.position, words, 0, protocol::open_request(desk.overhead))
}

/// Each keyword of `go` with its number bounds what it names: the depth in plies, the
/// number of nodes, the times and what the clocks gain in milliseconds, and the moves
/// to the time control. It takes nothing back of what the words before it ask for.
pub proof fn law_go_reads_its_keywords(desk: Desk, words: Seq<Seq<char>>, n: nat)
    requires
        n <= u64::MAX,
        forall|i: int| 0 <= i < words.len() ==> #[trigger] words[i] != "searchmoves"@,
    ensures
        ({
            let r = asked_for(desk, words);
            let number = text::decimal(n);
            let nanos = Some(n * 1_000_000);
            &&& n <= u32::MAX ==> asked_for(desk, words + seq!["depth"@, number]) == (Request {
                depth: Some(n as u32),
                ..r
            })
            &&& n <= u32::MAX ==> asked_for(desk, words + seq!["movestogo"@, number]) == (Request {
                moves_to_go: Some(n as u32),
                ..r
            })
            &&& asked_for(desk, words + seq!["nodes"@, number]) == (Request {
                nodes: Some(n as u64),
                ..r
            })
            &&& asked_for(desk, words + seq!["movetime"@, number]) == (Request {
                movetime: nanos,
                ..r
            })
            &&& asked_for(desk, words + seq!["wtime"@, number]) == (Request {
                white_time: nanos,
                ..r
            })
            &&& asked_for(desk, words + seq!["btime"@, number]) == (Request {
                black_time: nanos,
                ..r
            })
            &&& asked_for(desk, words + seq!["winc"@, number]) == (Request {
                white_increment: nanos,
                ..r
            })
            &&& asked_for(desk, words + seq!["binc"@, number]) == (Request {
                black_increment: nanos,
                ..r
            })
            &&& asked_for(desk, words + seq!["infinite"@, number]) == (Request {
                infinite: true,
                ..r
            })
        }),
        asked_for(desk, seq![]) == protocol::open_request(desk.overhead),
{
    lemma_keywords_differ();
    lemma_keywords_are_no_numbers();
    let open = protocol::open_request(desk.overhead);
    lemma_go_words(desk.position, words, "depth"@, n, 0, open);
    lemma_go_words(desk.position, words, "movestogo"@, n, 0, open);
    lemma_go_words(desk.position, words, "nodes"@, n, 0, open);
    lemma_go_words(desk.position, words, "movetime"@, n, 0, open);
    lemma_go_words(desk.position, words, "wtime"@, n, 0, open);
    lemma_go_words(desk.position, words, "btime"@, n, 0, open);
    lemma_go_words(desk.position, words, "winc"@, n, 0, open);
    lemma_go_words(desk.position, words, "binc"@, n, 0, open);
    lemma_go_words(desk.position, words, "infinite"@, n, 0, open);
}

/// No keyword is a number.
proof fn lemma_keywords_are_no_numbers()
    ensures
        text::natural("depth"@) is None,
        text::natural("nodes"@) is None,
        text::natural("movetime"@) is None,
        text::natural("wtime"@) is None,
        text::natural("btime"@) is None,
        text::natural("winc"@) is None,
        text::natural("binc"@) is None,
        text::natural("movestogo"@) is None,
        text::natural("infinite"@) is None,
{
    reveal_strlit("depth");
    reveal_strlit("nodes");
    reveal_strlit("movetime");
    reveal_strlit("wtime");
    reveal_strlit("btime");
    reveal_strlit("winc");
    reveal_strlit("binc");
    reveal_strlit("movestogo");
    reveal_strlit("infinite");
    assert(!text::is_digit("depth"@[0]));
    assert(!text::is_digit("nodes"@[0]));
    assert(!text::is_digit("movetime"@[0]));
    assert(!text::is_digit("wtime"@[0]));
    assert(!text::is_digit("btime"@[0]));
    assert(!text::is_digit("winc"@[0]));
    assert(!text::is_digit("binc"@[0]));
    assert(!text::is_digit("movestogo"@[0]));
    assert(!text::is_digit("infinite"@[0]));
}

/// What a `go` leaves open is filled in: with nothing to bound it, it runs until it is
/// told to stop; with a depth alone, it may take as long as the session's timeout,
/// where there is one; and a `go` that time or nodes bound is left as it is.
pub proof fn law_what_a_go_leaves_open(desk: Desk, words: Seq<Seq<char>>)
    ensures
        ({
            let r = asked_for(desk, words);
            let timed = r.movetime is Some || r.white_time is Some || r.black_time is Some;
            let full = protocol::requested(desk, words);
            if timed || r.nodes is Some || r.infinite {
                full == r
            } else if r.depth is None {
                full == (Request { infinite: true, ..r })
            } else if desk.timeout == 0 {
                full == r
            } else {
                full == (Request { movetime: Some(desk.timeout), ..r })
            }
        }),
{
}

/// After `searchmoves`, every word that is a move restricts the search to it, in
/// order.
pub proof fn law_searchmoves_restricts_the_search(
    position: Position,
    names: Seq<Seq<char>>,
    moves: Seq<Move>,
    r: Request,
)
    requires
        names.len() == moves.len(),
        forall|i: int|
            0 <= i < names.len() ==> protocol::denoted(position, #[trigger] names[i]) == Some(
                moves[i],
            ),
    ensures
        protocol::go_words(position, seq!["searchmoves"@] + names, 0, r) == (Request {
            search_moves: r.search_moves + moves,
            ..r
        }),
{
    let words = seq!["searchmoves"@] + names;
    assert(words[0] == "searchmoves"@);
    lemma_moves_among(position, words, names, moves, 0);
    assert(moves.skip(0) =~= moves);
    let next = Request { search_moves: r.search_moves + moves, ..r };
    assert(protocol::go_words(position, words, 1 + moves.len(), next) == next);
}

proof fn lemma_moves_among(
    position: Position,
    words: Seq<Seq<char>>,
    names: Seq<Seq<char>>,
    moves: Seq<Move>,
    from: nat,
)
    requires
        names.len() == moves.len(),
        words == seq!["searchmoves"@] + names,
        from <= names.len(),
        forall|i: int|
            0 <= i < names.len() ==> protocol::denoted(position, #[trigger] names[i]) == Some(
                moves[i],
            ),
    ensures
        protocol::moves_among(position, words, from + 1) == moves.skip(from as int),
    decreases names.len() - from,
{
    if from < names.len() {
        assert(words[from as int + 1] == names[from as int]);
        lemma_moves_among(position, words, names, moves, from + 1);
        assert(seq![moves[from as int]] + moves.skip(from as int + 1) =~= moves.skip(from as int));
    } else {
        assert(moves.skip(from as int) =~= seq![]);
    }
}

} // verus!
