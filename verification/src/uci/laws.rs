//! What holds of every session.

use vstd::prelude::*;

use crate::chess::Position;
use crate::clock::MILLISECOND;
use crate::game;
use crate::position;
use crate::rules;
use crate::search::options::Options;
use crate::text;
use crate::uci::protocol;
use crate::uci::protocol::{Deed, Desk, Flow, Request};

verus! {

/// Unknown words before a line are skipped, so `joho debug on` means `debug on`.
pub proof fn law_unknown_words_are_skipped(desk: Desk, junk: Seq<char>, line: Seq<char>)
    requires
        forall|i: int|
            0 <= i < text::words(junk).len() ==> !protocol::commands(#[trigger] text::words(junk)[i]),
    ensures
        protocol::handled(desk, junk.push(' ') + line) == protocol::handled(desk, line),
{
    text::law_words_of_two_texts(junk, ' ', line);
    lemma_unknown_words(desk, text::words(junk), text::words(line));
}

proof fn lemma_unknown_words(desk: Desk, junk: Seq<Seq<char>>, words: Seq<Seq<char>>)
    requires
        forall|i: int| 0 <= i < junk.len() ==> !protocol::commands(#[trigger] junk[i]),
    ensures
        protocol::obeyed(desk, junk + words) == protocol::obeyed(desk, words),
    decreases junk.len(),
{
    if junk.len() == 0 {
        assert(junk + words =~= words);
    } else {
        lemma_unknown_words(desk, junk.drop_first(), words);
        lemma_unknown_word(desk, junk[0], junk.drop_first() + words);
        assert(junk + words =~= seq![junk[0]] + (junk.drop_first() + words));
    }
}

proof fn lemma_unknown_word(desk: Desk, junk: Seq<char>, words: Seq<Seq<char>>)
    requires
        !protocol::commands(junk),
    ensures
        protocol::obeyed(desk, seq![junk] + words) == protocol::obeyed(desk, words),
{
    let all = seq![junk] + words;
    assert(all[0] == junk);
    lemma_shifted(junk, words, 0);
    if let Some(at) = protocol::command_at(words, 0) {
        lemma_command_at(words, 0);
        assert(all[at as int + 1] == words[at as int]);
        assert(all.skip(at as int + 2) =~= words.skip(at as int + 1));
    }
}

proof fn lemma_command_at(words: Seq<Seq<char>>, from: nat)
    ensures
        protocol::command_at(words, from) matches Some(at) ==> from <= at < words.len(),
    decreases words.len() - from,
{
    if from < words.len() {
        lemma_command_at(words, from + 1);
    }
}

proof fn lemma_shifted(junk: Seq<char>, words: Seq<Seq<char>>, from: nat)
    ensures
        protocol::command_at(seq![junk] + words, from + 1) == (match protocol::command_at(
            words,
            from,
        ) {
            Some(at) => Some((at + 1) as nat),
            None => None,
        }),
    decreases words.len() - from,
{
    let all = seq![junk] + words;
    if from < words.len() {
        assert(all[from as int + 1] == words[from as int]);
        lemma_shifted(junk, words, from + 1);
    }
}

/// A line without a command in it is ignored.
pub proof fn law_nonsense_is_ignored(desk: Desk, line: Seq<char>)
    requires
        forall|i: int|
            0 <= i < text::words(line).len() ==> !protocol::commands(#[trigger] text::words(line)[i]),
    ensures
        protocol::handled(desk, line) == (desk, protocol::saying(seq![])),
{
    lemma_no_command(text::words(line), 0);
}

proof fn lemma_no_command(words: Seq<Seq<char>>, from: nat)
    requires
        forall|i: int| 0 <= i < words.len() ==> !protocol::commands(#[trigger] words[i]),
    ensures
        protocol::command_at(words, from) is None,
    decreases words.len() - from,
{
    if from < words.len() {
        lemma_no_command(words, from + 1);
    }
}

/// The ranges that the options are advertised with.
pub open spec fn as_advertised(options: Options) -> bool {
    &&& 1 <= options.hash_mb <= 4096
    &&& 1 <= options.opponent_moves <= 64
    &&& 1 <= options.own_moves <= 218
    &&& 0 <= options.opportunity_bonus <= 30_000
    &&& 0 <= options.draw_penalty <= 1000
    &&& 0 <= options.malice <= 100
}

/// Whatever a client says, the options stay within the ranges that they are
/// advertised with, the times within theirs, and the weights are left alone.
#[verifier::rlimit(40)]
pub proof fn law_options_stay_within_their_ranges(desk: Desk, line: Seq<char>)
    requires
        as_advertised(desk.options),
        desk.overhead <= 5_000 * MILLISECOND,
        desk.timeout <= 600_000 * MILLISECOND,
    ensures
        as_advertised(protocol::handled(desk, line).0.options),
        protocol::handled(desk, line).0.overhead <= 5_000 * MILLISECOND,
        protocol::handled(desk, line).0.timeout <= 600_000 * MILLISECOND,
        protocol::handled(desk, line).0.options.weights == desk.options.weights,
{
    reveal(protocol::carried_out);
    let words = text::words(line);
    if let Some(at) = protocol::command_at(words, 0) {
        lemma_settings_stay_within_their_ranges(desk, words.skip(at as int + 1));
    }
}

proof fn lemma_settings_stay_within_their_ranges(desk: Desk, words: Seq<Seq<char>>)
    requires
        as_advertised(desk.options),
        desk.overhead <= 5_000 * MILLISECOND,
        desk.timeout <= 600_000 * MILLISECOND,
    ensures
        as_advertised(protocol::option_set(desk, words).0.options),
        protocol::option_set(desk, words).0.overhead <= 5_000 * MILLISECOND,
        protocol::option_set(desk, words).0.timeout <= 600_000 * MILLISECOND,
        protocol::option_set(desk, words).0.options.weights == desk.options.weights,
{
}

/// The settings of a session that begins with the usual ones are as advertised.
pub proof fn law_the_usual_options_are_as_advertised()
    ensures
        as_advertised(Options::usual()),
{
}

/// Only `setoption` changes the settings, and only `position` and `ucinewgame`
/// change the game.
pub proof fn law_commands_keep_to_their_business(
    desk: Desk,
    command: Seq<char>,
    rest: Seq<Seq<char>>,
)
    ensures
        command != "setoption"@ ==> protocol::carried_out(desk, command, rest).0.options
            == desk.options,
        command != "position"@ && command != "ucinewgame"@ ==> {
            let after = protocol::carried_out(desk, command, rest).0;
            after.position == desk.position && after.trail == desk.trail
        },
{
    reveal(protocol::carried_out);
}

/// Where there is something to say against a position, the game stays as it was.
pub proof fn law_a_refused_position_changes_nothing(desk: Desk, words: Seq<Seq<char>>)
    requires
        protocol::position_set(desk, words).1.lines.len() > 0,
    ensures
        protocol::position_set(desk, words).0 == desk,
{
}

/// The history of the game always ends with its position.
pub proof fn law_the_history_ends_with_the_position(desk: Desk, line: Seq<char>)
    requires
        desk.trail.len() > 0,
        desk.trail.last() == game::hash(desk.position),
    ensures
        protocol::handled(desk, line).0.trail.len() > 0,
        protocol::handled(desk, line).0.trail.last() == game::hash(
            protocol::handled(desk, line).0.position,
        ),
{
    reveal(protocol::carried_out);
    let words = text::words(line);
    if let Some(at) = protocol::command_at(words, 0) {
        let rest = words.skip(at as int + 1);
        if let Some(moves_at) = text::first(rest, "moves"@, 0) {
            if let Ok(position) = protocol::set_up(rest.take(moves_at as int)) {
                lemma_played(position, seq![game::hash(position)], rest, moves_at + 1);
            }
        }
    }
}

proof fn lemma_played(
    position: Position,
    trail: Seq<u64>,
    words: Seq<Seq<char>>,
    from: nat,
)
    requires
        trail.len() > 0,
        trail.last() == game::hash(position),
    ensures
        protocol::moves_played(position, trail, words, from) matches Ok(end) ==> end.1.len() > 0
            && end.1.last() == game::hash(end.0),
    decreases words.len() - from,
{
    if from < words.len() {
        if let Ok(m) = game::uci_outcome(position, words[from as int]) {
            let after = rules::after(position, m);
            lemma_played(after, trail.push(game::hash(after)), words, from + 1);
        }
    }
}

/// A `go` is never left without an end: something bounds it, or it is meant to
/// run until it is told to stop. And where only a depth bounds it, the timeout of
/// the session does too, unless there is none.
pub proof fn law_a_search_is_never_left_open(desk: Desk, words: Seq<Seq<char>>)
    ensures
        ({
            let r = protocol::requested(desk, words);
            &&& r.infinite || r.depth is Some || !protocol::unclocked(r)
            &&& protocol::unclocked(r) ==> desk.timeout == 0
            &&& r.move_overhead == desk.overhead
        }),
{
    lemma_overhead_stays(
        desk.position,
        words,
        0,
        protocol::open_request(desk.overhead),
    );
}

proof fn lemma_overhead_stays(
    position: Position,
    words: Seq<Seq<char>>,
    from: nat,
    r: Request,
)
    ensures
        protocol::go_words(position, words, from, r).move_overhead == r.move_overhead,
    decreases
            if from < words.len() {
                words.len() - from
            } else {
                0
            },
{
    if from < words.len() {
        if words[from as int] == "searchmoves"@ {
            let moves = protocol::moves_among(position, words, from + 1);
            lemma_overhead_stays(
                position,
                words,
                from + 1 + moves.len(),
                Request { search_moves: r.search_moves + moves, ..r },
            );
        } else {
            lemma_overhead_stays(
                position,
                words,
                from + 1,
                protocol::bounded(
                    r,
                    words[from as int],
                    protocol::number_at(words, from + 1),
                ),
            );
        }
    }
}

/// Only `quit` ends a session, and it says and does nothing else.
pub proof fn law_only_quit_ends_the_session(desk: Desk, command: Seq<char>, rest: Seq<Seq<char>>)
    requires
        protocol::carried_out(desk, command, rest).1.flow == Flow::Quit,
    ensures
        command == "quit"@,
        protocol::carried_out(desk, command, rest).0 == desk,
        protocol::carried_out(desk, command, rest).1.deed == Deed::Nothing,
{
    reveal(protocol::carried_out);
}

/// A session begins at the starting position, with no history, 30 milliseconds of slack,
/// five seconds for a search to a depth, and nothing more said than is asked for.
pub proof fn law_a_session_begins_at_the_start(options: Options)
    ensures
        ({
            let desk = protocol::fresh(options);
            &&& desk.options == options
            &&& desk.position == position::starting()
            &&& desk.trail == seq![game::hash(position::starting())]
            &&& desk.overhead == 30_000_000
            &&& desk.timeout == 5_000_000_000
            &&& !desk.debug
        }),
{
}

} // verus!
