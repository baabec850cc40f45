//! Running a session: lines in, replies out, and the engine kept up to date.

use vstd::prelude::*;
use vstd::string::*;

use std::sync::atomic::AtomicBool;
use std::sync::Arc;

use crate::chess::{Move, Position};
use crate::clock::{now, since, ClockReading, Duration, MILLISECOND};
use crate::game::Game;
use crate::rules;
use crate::search::engine;
use crate::search::engine::Engine;
use crate::search::limits::Limits;
use crate::search::model;
use crate::search::model::{Answers, Mind, Task};
use crate::search::options::Options;
use crate::search::root;
use crate::search::root::SearchInfo;
use crate::search::table;
use crate::text;
use crate::text::{letters, pad, push_number};
use crate::uci::protocol;
use crate::uci::protocol::{Action, Desk, Flow, Reply, Response};
use crate::uci::report;
use crate::uci::report::{format_answer, format_info};
use crate::uci::server::Server;

verus! {

/// A record of the conversation with a client, for working out what a GUI is
/// actually asking for when a game goes strangely.
///
/// Every line is stamped with the seconds since the session started and marked
/// with its direction: `>` for what the client sent, `<` for what the engine
/// replied.
#[derive(Clone, Copy, Debug)]
pub struct Transcript {
    kept: bool,
}

/// A time in nanoseconds, to the nearest millisecond.
pub open spec fn nearest_millis(nanos: nat) -> nat {
    (nanos + 500_000) / (MILLISECOND as nat)
}

/// The last three digits of a number of milliseconds.
pub open spec fn thousandths(millis: nat) -> Seq<char> {
    seq![
        text::digit(millis as int / 100 % 10),
        text::digit(millis as int / 10 % 10),
        text::digit(millis as int % 10),
    ]
}

/// A number of milliseconds in seconds, with three decimals.
pub open spec fn seconds(millis: nat) -> Seq<char> {
    text::decimal(millis / 1000) + seq!['.'] + thousandths(millis)
}

/// What stands before each line of a transcript: the time and the direction.
pub open spec fn mark(millis: nat, direction: char) -> Seq<char> {
    seq!['['] + text::padded(seconds(millis), 8) + "] "@ + seq![direction, ' ']
}

/// A text as a transcript holds it, with the mark before each of its lines.
pub open spec fn stamped(millis: nat, direction: char, said: Seq<char>) -> Seq<char>
    decreases said.len(),
{
    if said.len() == 0 {
        mark(millis, direction)
    } else {
        let before = stamped(millis, direction, said.drop_last());
        if said.last() == '\n' {
            before.push('\n') + mark(millis, direction)
        } else {
            before.push(said.last())
        }
    }
}

/// The lines of a text, which newlines separate.
pub open spec fn lines_in(said: Seq<char>) -> Seq<Seq<char>>
    decreases said.len(),
{
    if said.len() == 0 {
        seq![seq![]]
    } else {
        let before = lines_in(said.drop_last());
        if said.last() == '\n' {
            before.push(seq![])
        } else {
            before.drop_last().push(before.last().push(said.last()))
        }
    }
}

/// Every line is stamped with the time and marked with its direction.
pub proof fn law_every_line_is_stamped(millis: nat, direction: char, said: Seq<char>)
    requires
        direction != '\n',
    ensures
        lines_in(said).len() > 0,
        lines_in(stamped(millis, direction, said)) == Seq::new(
            lines_in(said).len(),
            |i: int| mark(millis, direction) + lines_in(said)[i],
        ),
    decreases said.len(),
{
    let head = mark(millis, direction);
    lemma_mark_is_one_line(millis, direction);
    let goal = Seq::new(lines_in(said).len(), |i: int| head + lines_in(said)[i]);
    if said.len() == 0 {
        lemma_longer_last_line(seq![], head);
        assert(Seq::<char>::empty() + head =~= head);
        assert(lines_in(head) =~= goal);
    } else {
        let before = stamped(millis, direction, said.drop_last());
        law_every_line_is_stamped(millis, direction, said.drop_last());
        let earlier = lines_in(said.drop_last());
        if said.last() == '\n' {
            let broken = before.push('\n');
            assert(broken.drop_last() =~= before);
            lemma_longer_last_line(broken, head);
            assert(Seq::<char>::empty() + head =~= head);
            assert(lines_in(broken + head) =~= goal);
        } else {
            let longer = before.push(said.last());
            assert(longer.drop_last() =~= before);
            let last = earlier.last();
            assert((head + last).push(said.last()) =~= head + last.push(said.last()));
            assert(lines_in(longer) =~= goal);
        }
    }
}

/// What has no newline in it only makes the last line longer.
proof fn lemma_longer_last_line(said: Seq<char>, more: Seq<char>)
    requires
        unbroken(more),
    ensures
        lines_in(said).len() > 0,
        lines_in(said + more) == lines_in(said).drop_last().push(lines_in(said).last() + more),
    decreases said.len() + more.len(),
{
    if said.len() > 0 && more.len() == 0 {
        lemma_longer_last_line(said.drop_last(), seq![]);
    }
    let lines = lines_in(said);
    if more.len() == 0 {
        assert(said + more =~= said);
        assert(lines.last() + more =~= lines.last());
        assert(lines.drop_last().push(lines.last()) =~= lines);
    } else {
        let rest = more.drop_last();
        lemma_longer_last_line(said, rest);
        assert((said + more).drop_last() =~= said + rest);
        assert((said + more).last() == more.last());
        assert((lines.last() + rest).push(more.last()) =~= lines.last() + more);
        assert(lines.drop_last().push(lines.last() + rest).drop_last() =~= lines.drop_last());
    }
}

/// Whether a text has no newline in it.
pub open spec fn unbroken(said: Seq<char>) -> bool {
    forall|i: int| 0 <= i < said.len() ==> #[trigger] said[i] != '\n'
}

proof fn lemma_mark_is_one_line(millis: nat, direction: char)
    requires
        direction != '\n',
    ensures
        unbroken(mark(millis, direction)),
{
    lemma_decimal_is_one_line(millis / 1000);
    assert(unbroken(seconds(millis)));
    lemma_padded_is_one_line(seconds(millis), 8);
    reveal_strlit("] ");
    assert(unbroken("] "@));
}

proof fn lemma_decimal_is_one_line(n: nat)
    ensures
        unbroken(text::decimal(n)),
    decreases n,
{
    if n >= 10 {
        lemma_decimal_is_one_line(n / 10);
    }
}

proof fn lemma_padded_is_one_line(said: Seq<char>, width: nat)
    requires
        unbroken(said),
    ensures
        unbroken(text::padded(said, width)),
    decreases width - said.len(),
{
    if said.len() < width {
        lemma_padded_is_one_line(seq![' '] + said, width);
    }
}

impl Transcript {
    /// Whether anything is recorded.
    pub closed spec fn is_kept(self) -> bool {
        self.kept
    }

    /// Record nothing.
    pub fn off() -> (transcript: Transcript)
        ensures
            !transcript.is_kept(),
    {
        Transcript { kept: false }
    }

    /// Record everything.
    pub fn on() -> (transcript: Transcript)
        ensures
            transcript.is_kept(),
    {
        Transcript { kept: true }
    }

    /// What to record of something that is said, so long after the start of the
    /// session. Each of its lines is stamped and marked.
    pub fn record(&self, direction: char, said: &str, elapsed: Duration) -> (entry: Option<String>)
        ensures
            entry is Some <==> self.is_kept(),
            entry matches Some(entry) ==> entry@ == stamped(
                nearest_millis(elapsed.total()),
                direction,
                said@,
            ),
    {
        if !self.kept {
            return None;
        }
        let millis: u128 = (elapsed.as_nanos() + 500_000) / MILLISECOND;
        let head = format_mark(millis, direction);
        let letters = letters(said);
        let mut entry = head.clone();
        let mut index: usize = 0;
        proof {
            assert(said@.take(0) =~= seq![]);
        }
        while index < letters.len()
            invariant
                index <= letters.len(),
                letters@ == said@,
                head@ == mark(millis as nat, direction),
                entry@ == stamped(millis as nat, direction, said@.take(index as int)),
            decreases letters.len() - index,
        {
            let letter = letters[index];
            proof {
                assert(said@.take(index + 1).drop_last() =~= said@.take(index as int));
                assert(said@.take(index + 1).last() == letter);
            }
            entry.push(letter);
            if letter == '\n' {
                entry.append(head.as_str());
            }
            index += 1;
        }
        proof {
            assert(said@.take(index as int) =~= said@);
        }
        Some(entry)
    }
}

/// What stands before each line of a transcript.
fn format_mark(millis: u128, direction: char) -> (head: String)
    ensures
        head@ == mark(millis as nat, direction),
{
    let mut time = String::new();
    push_number(&mut time, millis / 1000);
    time.push('.');
    time.push((48u8 + (millis / 100 % 10) as u8) as char);
    time.push((48u8 + (millis / 10 % 10) as u8) as char);
    time.push((48u8 + (millis % 10) as u8) as char);
    proof {
        assert(time@ =~= seconds(millis as nat));
    }
    let time = pad(time, 8);
    let mut head = "[".to_owned();
    head.append(time.as_str());
    head.append("] ");
    head.push(direction);
    head.push(' ');
    proof {
        reveal_strlit("[");
        assert("["@ =~= seq!['[']);
        assert(head@ =~= mark(millis as nat, direction));
    }
    head
}

impl Default for Transcript {
    fn default() -> (transcript: Transcript)
        ensures
            !transcript.is_kept(),
    {
        Transcript::off()
    }
}

/// The replies to the lines of a client from `from` on, up to the one that ends
/// the session.
pub open spec fn replies_to(desk: Desk, lines: Seq<Seq<char>>, from: nat) -> Seq<Response>
    decreases lines.len() - from,
{
    if from >= lines.len() {
        seq![]
    } else {
        let (after, response) = protocol::handled(desk, lines[from as int]);
        if response.flow == Flow::Quit {
            seq![response]
        } else {
            seq![response] + replies_to(after, lines, from + 1)
        }
    }
}

/// The replies of a list as mathematical values.
pub open spec fn responses(replies: Seq<Reply>) -> Seq<Response> {
    Seq::new(replies.len(), |i: int| replies[i].response())
}

/// What is said in a session: each line of the client, and after it what it was
/// answered.
pub open spec fn conversation(lines: Seq<Seq<char>>, replies: Seq<Response>, n: nat) -> Seq<
    (char, Seq<char>),
>
    decreases n,
{
    if n == 0 {
        seq![]
    } else {
        conversation(lines, replies, (n - 1) as nat).push(('>', lines[n - 1])) + answers(
            replies[n - 1].lines,
        )
    }
}

/// Lines as what the engine says.
pub open spec fn answers(lines: Seq<Seq<char>>) -> Seq<(char, Seq<char>)> {
    Seq::new(lines.len(), |i: int| ('<', lines[i]))
}

/// Whether an entry of a transcript records that something was said, at a time that
/// was read from the clock since a moment.
pub open spec fn records(
    entry: Seq<char>,
    said: (char, Seq<char>),
    start: std::time::Instant,
) -> bool {
    exists|reading: ClockReading|
        #[trigger] reading.start() == start && entry == stamped(
            nearest_millis(reading.nanos()),
            said.0,
            said.1,
        )
}

/// Whether a transcript records all that was said, in order, in a session that
/// started at a moment.
pub open spec fn records_all(
    entries: Seq<Seq<char>>,
    said: Seq<(char, Seq<char>)>,
    start: std::time::Instant,
) -> bool {
    &&& entries.len() == said.len()
    &&& forall|i: int| 0 <= i < said.len() ==> records(#[trigger] entries[i], said[i], start)
}

/// Whether a transcript records all that was said, in order, with the times since
/// the session started.
pub open spec fn transcribes(entries: Seq<Seq<char>>, said: Seq<(char, Seq<char>)>) -> bool {
    exists|start: std::time::Instant| #[trigger] records_all(entries, said, start)
}

/// Answers the lines of a client, until they quit or the lines end.
pub fn run(lines: &Vec<String>) -> (replies: Vec<Reply>)
    ensures
        responses(replies@) == replies_to(
            protocol::fresh(Options::usual()),
            text::views(lines@),
            0,
        ),
{
    run_with(lines, Options::default())
}

/// Like [`run`], but with the engine configured up front.
///
/// A client can still change anything with `setoption`; this only decides what
/// the session starts with. It exists for front ends that cannot send options
/// of their own, which is most of the simpler ones.
pub fn run_with(lines: &Vec<String>, options: Options) -> (replies: Vec<Reply>)
    requires
        options.in_range(),
    ensures
        responses(replies@) == replies_to(protocol::fresh(options), text::views(lines@), 0),
{
    run_logged(lines, options, Transcript::off()).0
}

/// Like [`run_with`], but also writing down the whole conversation, if the
/// transcript is kept.
pub fn run_logged(lines: &Vec<String>, options: Options, transcript: Transcript) -> (session: (
    Vec<Reply>,
    Vec<String>,
))
    requires
        options.in_range(),
    ensures
        responses(session.0@) == replies_to(protocol::fresh(options), text::views(lines@), 0),
        !transcript.is_kept() ==> session.1@.len() == 0,
        transcript.is_kept() ==> transcribes(
            text::views(session.1@),
            conversation(text::views(lines@), responses(session.0@), session.0@.len()),
        ),
{
    let started = now();
    let mut server = Server::with_options(options);
    let mut replies: Vec<Reply> = Vec::new();
    let mut entries: Vec<String> = Vec::new();
    let mut index: usize = 0;
    let mut quit: bool = false;
    let ghost all = text::views(lines@);
    let ghost goal = replies_to(protocol::fresh(options), all, 0);
    proof {
        assert(responses(replies@) + goal =~= goal);
    }
    while !quit && index < lines.len()
        invariant
            index <= lines.len(),
            replies@.len() == index,
            all == text::views(lines@),
            server.wf(),
            goal == replies_to(protocol::fresh(options), all, 0),
            !quit ==> goal == responses(replies@) + replies_to(server.desk(), all, index as nat),
            quit ==> goal == responses(replies@),
            !transcript.is_kept() ==> entries@.len() == 0,
            transcript.is_kept() ==> records_all(
                text::views(entries@),
                conversation(all, responses(replies@), index as nat),
                started,
            ),
        decreases
                lines.len() - index,
                if quit {
                    0int
                } else {
                    1int
                },
    {
        let ghost earlier = replies@;
        let ghost desk = server.desk();
        let ghost said = conversation(all, responses(replies@), index as nat);
        let line = &lines[index];
        note(&transcript, &mut entries, '>', line.as_str(), &started, Ghost(said));
        let reply = server.handle(line.as_str());
        let ghost response = reply.response();
        quit = match reply.flow {
            Flow::Quit => true,
            Flow::Continue => false,
        };
        let ghost asked = said.push(('>', line@));
        note_all(&transcript, &mut entries, &reply.lines, &started, Ghost(asked));
        replies.push(reply);
        proof {
            assert(responses(replies@) =~= responses(earlier).push(response));
            lemma_conversation(all, responses(earlier), responses(replies@), index as nat);
            let rest = replies_to(server.desk(), all, (index + 1) as nat);
            assert(replies_to(desk, all, index as nat) == if quit {
                seq![response]
            } else {
                seq![response] + rest
            });
            if quit {
                assert(responses(earlier) + seq![response] =~= responses(replies@));
            } else {
                assert(responses(earlier) + (seq![response] + rest) =~= responses(replies@) + rest);
            }
        }
        index += 1;
    }
    proof {
        if !quit {
            assert(responses(replies@) + replies_to(server.desk(), all, index as nat)
                =~= responses(replies@));
        }
        let said = conversation(all, responses(replies@), replies@.len());
        if transcript.is_kept() {
            assert(records_all(text::views(entries@), said, started));
            assert(transcribes(text::views(entries@), said));
        }
    }
    (replies, entries)
}

/// A conversation depends only on what has been answered so far.
proof fn lemma_conversation(
    lines: Seq<Seq<char>>,
    some: Seq<Response>,
    more: Seq<Response>,
    n: nat,
)
    requires
        n <= some.len() <= more.len(),
        forall|i: int| 0 <= i < n ==> some[i] == more[i],
    ensures
        conversation(lines, some, n) == conversation(lines, more, n),
    decreases n,
{
    if n > 0 {
        lemma_conversation(lines, some, more, (n - 1) as nat);
    }
}

/// Adds an entry to a transcript, if it is kept.
fn note(
    transcript: &Transcript,
    entries: &mut Vec<String>,
    direction: char,
    line: &str,
    started: &std::time::Instant,
    Ghost(said): Ghost<Seq<(char, Seq<char>)>>,
)
    requires
        transcript.is_kept() ==> records_all(text::views(old(entries)@), said, *started),
        !transcript.is_kept() ==> old(entries)@.len() == 0,
    ensures
        transcript.is_kept() ==> records_all(
            text::views(final(entries)@),
            said.push((direction, line@)),
            *started,
        ),
        !transcript.is_kept() ==> final(entries)@.len() == 0,
{
    let reading = since(started);
    if let Some(entry) = transcript.record(direction, line, reading.elapsed()) {
        let ghost text = entry@;
        entries.push(entry);
        proof {
            assert(text::views(entries@) =~= text::views(old(entries)@).push(text));
            let said_now = (direction, line@);
            assert(reading.start() == *started);
            assert(records(text, said_now, *started));
        }
    }
}

/// Adds an entry for each line of a reply, if the transcript is kept.
fn note_all(
    transcript: &Transcript,
    entries: &mut Vec<String>,
    lines: &Vec<String>,
    started: &std::time::Instant,
    Ghost(said): Ghost<Seq<(char, Seq<char>)>>,
)
    requires
        transcript.is_kept() ==> records_all(text::views(old(entries)@), said, *started),
        !transcript.is_kept() ==> old(entries)@.len() == 0,
    ensures
        transcript.is_kept() ==> records_all(
            text::views(final(entries)@),
            said + answers(text::views(lines@)),
            *started,
        ),
        !transcript.is_kept() ==> final(entries)@.len() == 0,
{
    let mut next: usize = 0;
    proof {
        assert(said + answers(text::views(lines@).take(0)) =~= said);
    }
    while next < lines.len()
        invariant
            next <= lines.len(),
            !transcript.is_kept() ==> entries@.len() == 0,
            transcript.is_kept() ==> records_all(
                text::views(entries@),
                said + answers(text::views(lines@).take(next as int)),
                *started,
            ),
        decreases lines.len() - next,
    {
        let ghost so_far = said + answers(text::views(lines@).take(next as int));
        note(transcript, entries, '<', lines[next].as_str(), started, Ghost(so_far));
        proof {
            let more = said + answers(text::views(lines@).take(next + 1));
            assert(more =~= so_far.push(('<', lines@[next as int]@)));
        }
        next += 1;
    }
    proof {
        assert(text::views(lines@).take(next as int) =~= text::views(lines@));
    }
}

/// What a client is told about a search: a report on each iteration, and the
/// answer.
pub open spec fn told(
    lines: Seq<Seq<char>>,
    reports: Seq<SearchInfo>,
    best: Option<Move>,
    debug: bool,
) -> bool {
    &&& lines.len() == reports.len() + 1
    &&& forall|i: int|
        0 <= i < reports.len() ==> #[trigger] lines[i] == report::info_text(reports[i], debug)
    &&& lines.last() == report::answer_text(best)
}

/// Whether a search from one state of an engine to another ends with these
/// reports and this move: one of those that are considered, if there are any, and
/// what the search that was asked for comes to, given the answers that the engine
/// has heard. Every time is a reading of the clock since the search began.
pub open spec fn comes_to(
    before: Engine,
    after: Engine,
    position: Position,
    trail: Seq<u64>,
    limits: Limits,
    reports: Seq<SearchInfo>,
    best: Option<Move>,
) -> bool {
    let allowed = model::candidates(position, limits.search_moves@);
    let task = root::tasked(before, position, limits);
    &&& after.task() == task
    &&& after.attentive()
    &&& forall|i: int| 0 <= i < reports.len() ==> after.timed((#[trigger] reports[i]).elapsed)
    &&& best is Some <==> allowed.len() > 0
    &&& best matches Some(m) ==> allowed.contains(m) && rules::legal(position).contains(m)
    &&& forall|answers: Answers| #[trigger]
        model::agrees(after.answers_heard(), answers) ==> {
            let (mind, standing, reported) = model::searched(
                task,
                answers,
                model::refreshed(before.mind(), trail),
                position,
                model::before_searching(position, limits.search_moves@),
                root::depth_limit(limits),
                seq![],
            );
            &&& after.mind() == mind
            &&& best == standing.best
            &&& root::reports_of(reports) == reported
        }
}

/// Searches, and says what there is to say about it.
pub fn answer(
    engine: &mut Engine,
    game: &Game,
    limits: &Limits,
    stop: Arc<AtomicBool>,
    debug: bool,
) -> (lines: Vec<String>)
    requires
        old(engine).wf(),
        old(engine).task().options.in_range(),
    ensures
        final(engine).wf(),
        final(engine).task().options == old(engine).task().options,
        final(engine).flag() == Some(stop),
        exists|reports: Seq<SearchInfo>, best: Option<Move>| #[trigger]
            told(text::views(lines@), reports, best, debug) && comes_to(
                *old(engine),
                *final(engine),
                game.current(),
                game.trail(),
                *limits,
                reports,
                best,
            ),
{
    let mut reports: Vec<SearchInfo> = Vec::new();
    let result = engine.search(game, limits, stop, &mut reports);
    let mut lines: Vec<String> = Vec::new();
    let mut index: usize = 0;
    while index < reports.len()
        invariant
            index <= reports.len(),
            lines.len() == index,
            forall|i: int|
                0 <= i < reports@.len() ==> engine::playable_line(
                    game.current(),
                    (#[trigger] reports@[i]).pv@,
                ),
            forall|i: int|
                0 <= i < index ==> (#[trigger] lines@[i])@ == report::info_text(reports@[i], debug),
        decreases reports.len() - index,
    {
        proof {
            root::lemma_line_on_board(game.current(), reports@[index as int].pv@);
        }
        let line = format_info(&reports[index], debug);
        lines.push(line);
        index += 1;
    }
    let line = format_answer(result.best_move);
    lines.push(line);
    proof {
        assert(told(text::views(lines@), reports@, result.best_move, debug));
        assert(reports@.skip(0) =~= reports@);
    }
    lines
}

/// Whether an engine has done what a reply of a session asks for, and these lines say
/// what there is to say about it.
pub open spec fn carries_out(
    before: Engine,
    after: Engine,
    desk: Desk,
    action: Action,
    lines: Seq<Seq<char>>,
) -> bool {
    match action {
        Action::Nothing => after == before && lines.len() == 0,
        Action::Configure => {
            &&& lines.len() == 0
            &&& after.task() == (Task { options: desk.options, ..before.task() })
            &&& after.mind() == before.mind()
        },
        Action::Resize => {
            &&& lines.len() == 0
            &&& after.task() == (Task { options: desk.options, ..before.task() })
            &&& if desk.options.table_fits() {
                &&& after.has_table_of(desk.options.hash_mb)
                &&& after.mind() == (Mind {
                    entries: table::empty(after.mind().entries.len()),
                    ..before.mind()
                })
            } else {
                after.mind() == before.mind()
            }
        },
        Action::Clear => {
            &&& lines.len() == 0
            &&& after.task() == before.task()
            &&& after.knows_nothing()
            &&& after.mind().entries.len() == before.mind().entries.len()
        },
        Action::Search(limits) => exists|reports: Seq<SearchInfo>, best: Option<Move>| #[trigger]
            told(lines, reports, best, desk.debug) && comes_to(
                before,
                after,
                desk.position,
                desk.trail,
                limits,
                reports,
                best,
            ),
    }
}

/// Does to the engine what a reply asks for, and says what there is to say about
/// it.
pub fn perform(engine: &mut Engine, server: &Server, action: Action, stop: Arc<AtomicBool>) -> (
    lines: Vec<String>)
    requires
        old(engine).wf(),
        old(engine).task().options.in_range(),
        server.wf(),
    ensures
        final(engine).wf(),
        final(engine).task().options.in_range(),
        !(action is Search) ==> lines@.len() == 0,
        action is Nothing ==> *final(engine) == *old(engine),
        !(action is Search) ==> {
            &&& final(engine).answers_heard() == old(engine).answers_heard()
            &&& final(engine).flag() == old(engine).flag()
            &&& final(engine).clock_start() == old(engine).clock_start()
            &&& final(engine).began() == old(engine).began()
        },
        action is Configure || action is Resize ==> final(engine).task() == (Task {
            options: server.desk().options,
            ..old(engine).task()
        }),
        action is Configure ==> final(engine).mind() == old(engine).mind(),
        action is Resize && server.desk().options.table_fits() ==> {
            &&& final(engine).mind() == (Mind {
                entries: table::empty(final(engine).mind().entries.len()),
                ..old(engine).mind()
            })
            &&& final(engine).has_table_of(server.desk().options.hash_mb)
        },
        action is Resize && !server.desk().options.table_fits() ==> final(engine).mind() == old(
            engine,
        ).mind(),
        action is Clear ==> {
            &&& final(engine).knows_nothing()
            &&& final(engine).task() == old(engine).task()
            &&& final(engine).mind().entries.len() == old(engine).mind().entries.len()
            &&& final(engine).mind() == (Mind {
                entries: final(engine).mind().entries,
                killers: final(engine).mind().killers,
                ..old(engine).mind()
            })
        },
        action matches Action::Search(limits) ==> {
            &&& final(engine).flag() == Some(stop)
            &&& exists|reports: Seq<SearchInfo>, best: Option<Move>| #[trigger]
                told(text::views(lines@), reports, best, server.desk().debug) && comes_to(
                    *old(engine),
                    *final(engine),
                    server.desk().position,
                    server.desk().trail,
                    limits,
                    reports,
                    best,
                )
        },
        carries_out(*old(engine), *final(engine), server.desk(), action, text::views(lines@)),
{
    match action {
        Action::Nothing => Vec::new(),
        Action::Configure => {
            engine.configure(server.options());
            Vec::new()
        },
        Action::Resize => {
            let options = server.options();
            engine.configure(options);
            // A table that the machine cannot address stays as it is.
            if options.is_addressable() {
                engine.resize_table();
            }
            Vec::new()
        },
        Action::Clear => {
            engine.clear();
            Vec::new()
        },
        Action::Search(limits) => answer(engine, server.game(), &limits, stop, server.debugs()),
    }
}

/// A time is stamped to the nearest millisecond: in seconds before the point, and with
/// the thousandths in three digits after it.
pub proof fn law_a_stamp_is_the_nearest_millisecond(nanos: nat)
    ensures
        ({
            let millis = nearest_millis(nanos);
            let shown = seconds(millis);
            let n = shown.len() - 4;
            &&& -1_000_000 <= 2 * (nanos - 1_000_000 * millis) < 1_000_000
            &&& n > 0
            &&& text::natural(shown.take(n)) == Some(millis / 1000)
            &&& shown[n] == '.'
            &&& text::natural(shown.skip(n + 1)) == Some(millis % 1000)
        }),
{
    let millis = nearest_millis(nanos);
    let shown = seconds(millis);
    let n = shown.len() - 4;
    text::law_what_is_written_is_read(millis / 1000);
    assert(shown.take(n) =~= text::decimal(millis / 1000));
    text::lemma_decimal(millis / 1000);
    lemma_thousandths(millis);
    assert(shown.skip(n + 1) =~= thousandths(millis));
}

proof fn lemma_three_digits(n: nat)
    ensures
        n as int % 1000 == 100 * (n as int / 100 % 10) + 10 * (n as int / 10 % 10) + n as int % 10,
        0 <= n as int / 100 % 10 < 10,
        0 <= n as int / 10 % 10 < 10,
        0 <= n as int % 10 < 10,
{
    let whole = n as int;
    let tens = whole / 10;
    let hundreds = whole / 100;
    let thousands = whole / 1000;
    vstd::arithmetic::div_mod::lemma_div_denominator(whole, 10, 10);
    vstd::arithmetic::div_mod::lemma_div_denominator(whole, 100, 10);
    vstd::arithmetic::div_mod::lemma_fundamental_div_mod(whole, 10);
    vstd::arithmetic::div_mod::lemma_fundamental_div_mod(tens, 10);
    vstd::arithmetic::div_mod::lemma_fundamental_div_mod(hundreds, 10);
    vstd::arithmetic::div_mod::lemma_fundamental_div_mod(whole, 1000);
    assert(hundreds == tens / 10 && thousands == hundreds / 10);
}

proof fn lemma_thousandths(millis: nat)
    ensures
        text::natural(thousandths(millis)) == Some(millis % 1000),
{
    let digits = thousandths(millis);
    let a = millis as int / 100 % 10;
    let b = millis as int / 10 % 10;
    let c = millis as int % 10;
    lemma_three_digits(millis);
    let first = Seq::<char>::empty().push(text::digit(a));
    let second = first.push(text::digit(b));
    text::law_decimal_notation_has_ten_digits(0, a, Seq::<char>::empty());
    text::law_decimal_notation_has_ten_digits(0, b, first);
    text::law_decimal_notation_has_ten_digits(0, c, second);
    assert(digits =~= second.push(text::digit(c)));
    assert(text::value(Seq::<char>::empty()) == 0);
    assert(text::is_digit(digits[0]) && text::is_digit(digits[1]) && text::is_digit(digits[2]));
    assert(text::all_digits(digits));
}

/// What stands before each line of a transcript is the time in brackets, at least eight
/// characters wide, and then the direction.
pub proof fn law_a_mark_has_time_and_direction(millis: nat, direction: char)
    ensures
        ({
            let head = mark(millis, direction);
            let n = head.len();
            &&& n >= 13
            &&& head[0] == '['
            &&& head.subrange(1, n - 4) == text::padded(seconds(millis), 8)
            &&& head[n - 4] == ']' && head[n - 3] == ' '
            &&& head[n - 2] == direction && head[n - 1] == ' '
        }),
{
    reveal_strlit("] ");
    text::law_padding_goes_in_front(seconds(millis), 8);
    let head = mark(millis, direction);
    assert(head.subrange(1, head.len() - 4) =~= text::padded(seconds(millis), 8));
}

/// The state of a session after the first `n` lines of a client.
pub open spec fn desk_after(desk: Desk, lines: Seq<Seq<char>>, n: nat) -> Desk
    decreases n,
{
    if n == 0 {
        desk
    } else {
        protocol::handled(desk_after(desk, lines, (n - 1) as nat), lines[n - 1]).0
    }
}

/// Each line of a client is answered in turn, by what the session has come to by then,
/// until one of them ends it; nothing after that is answered.
pub proof fn law_every_line_is_answered_until_the_end(desk: Desk, lines: Seq<Seq<char>>)
    ensures
        ({
            let replies = replies_to(desk, lines, 0);
            &&& replies.len() <= lines.len()
            &&& forall|i: int|
                0 <= i < replies.len() ==> #[trigger] replies[i] == protocol::handled(
                    desk_after(desk, lines, i as nat),
                    lines[i],
                ).1
            &&& forall|i: int|
                0 <= i < replies.len() - 1 ==> (#[trigger] replies[i]).flow == Flow::Continue
            &&& replies.len() < lines.len() ==> replies.len() > 0 && replies.last().flow
                == Flow::Quit
        }),
{
    lemma_replies(desk, lines, 0);
}

proof fn lemma_replies(first: Desk, lines: Seq<Seq<char>>, from: nat)
    requires
        from <= lines.len(),
    ensures
        ({
            let replies = replies_to(desk_after(first, lines, from), lines, from);
            &&& replies.len() <= lines.len() - from
            &&& forall|i: int|
                0 <= i < replies.len() ==> #[trigger] replies[i] == protocol::handled(
                    desk_after(first, lines, (from + i) as nat),
                    lines[from + i],
                ).1
            &&& forall|i: int|
                0 <= i < replies.len() - 1 ==> (#[trigger] replies[i]).flow == Flow::Continue
            &&& replies.len() < lines.len() - from ==> replies.len() > 0 && replies.last().flow
                == Flow::Quit
        }),
    decreases lines.len() - from,
{
    if from < lines.len() {
        lemma_replies(first, lines, from + 1);
        let desk = desk_after(first, lines, from);
        let (after, response) = protocol::handled(desk, lines[from as int]);
        assert(desk_after(first, lines, from + 1) == after);
        let rest = replies_to(after, lines, from + 1);
        let replies = replies_to(desk, lines, from);
        if response.flow != Flow::Quit {
            assert(replies == seq![response] + rest);
            assert forall|i: int| 0 <= i < replies.len() implies #[trigger] replies[i]
                == protocol::handled(
                desk_after(first, lines, (from + i) as nat),
                lines[from + i],
            ).1 by {
                if i > 0 {
                    assert(replies[i] == rest[i - 1]);
                }
            }
            assert forall|i: int| 0 <= i < replies.len() - 1 implies (
            #[trigger] replies[i]).flow == Flow::Continue by {
                if i > 0 {
                    assert(replies[i] == rest[i - 1]);
                }
            }
            if rest.len() > 0 {
                assert(replies.last() == rest.last());
            }
        }
    }
}

/// A transcript of a session with `n` lines of the client has each of them before what
/// it was answered: the last line, and then the replies to it, come after all that was
/// said before.
pub proof fn law_a_conversation_goes_back_and_forth(
    lines: Seq<Seq<char>>,
    replies: Seq<Response>,
    n: nat,
    i: int,
)
    requires
        0 < n <= lines.len(),
        n <= replies.len(),
        0 <= i < replies[n - 1].lines.len(),
    ensures
        ({
            let before = conversation(lines, replies, (n - 1) as nat);
            let now = conversation(lines, replies, n);
            &&& now.len() == before.len() + 1 + replies[n - 1].lines.len()
            &&& now.take(before.len() as int) == before
            &&& now[before.len() as int] == ('>', lines[n - 1])
            &&& now[before.len() + 1 + i] == ('<', replies[n - 1].lines[i])
        }),
{
    let before = conversation(lines, replies, (n - 1) as nat);
    let now = conversation(lines, replies, n);
    assert(now.take(before.len() as int) =~= before);
}

/// A new setting reaches the engine, and leaves what it knows alone unless the table has to
/// change its size. An engine that is cleared knows nothing of any position, and so does one
/// whose table was replaced; neither forgets its settings.
pub proof fn law_an_engine_does_as_it_is_told(
    before: Engine,
    after: Engine,
    desk: Desk,
    action: Action,
    lines: Seq<Seq<char>>,
    key: u64,
)
    requires
        carries_out(before, after, desk, action, lines),
        before.wf(),
        after.wf(),
    ensures
        action is Configure || action is Resize ==> after.task().options == desk.options,
        action is Configure ==> table::known(after.mind().entries, key) == table::known(
            before.mind().entries,
            key,
        ),
        action is Clear || (action is Resize && desk.options.table_fits()) ==> table::known(
            after.mind().entries,
            key,
        ) is None,
        action is Clear || action is Nothing ==> after.task() == before.task(),
        !(action is Search) ==> lines.len() == 0,
{
}

/// A search is answered last, after a report on each of its passes; the answer is a legal
/// move wherever one may be played, and the word for no move only where there is none.
pub proof fn law_a_search_is_answered_last(
    before: Engine,
    after: Engine,
    desk: Desk,
    action: Action,
    lines: Seq<Seq<char>>,
    i: int,
)
    requires
        carries_out(before, after, desk, action, lines),
        action is Search,
    ensures
        lines.len() > 0,
        exists|best: Option<Move>|
            {
                let allowed = model::candidates(
                    desk.position,
                    action->Search_0.search_moves@,
                );
                &&& lines.last() == #[trigger] report::answer_text(best)
                &&& best is None <==> allowed.len() == 0
                &&& best matches Some(m) ==> rules::legal(desk.position).contains(m)
                    && allowed.contains(m)
            },
        0 <= i < lines.len() - 1 ==> exists|info: SearchInfo|
            lines[i] == #[trigger] report::info_text(info, desk.debug),
        after.task().victim == desk.position.turn,
{
    let limits = action->Search_0;
    let (reports, best) = choose|reports: Seq<SearchInfo>, best: Option<Move>| #[trigger]
        told(lines, reports, best, desk.debug) && comes_to(
            before,
            after,
            desk.position,
            desk.trail,
            limits,
            reports,
            best,
        );
    assert(lines.last() == report::answer_text(best));
    if 0 <= i < lines.len() - 1 {
        assert(lines[i] == report::info_text(reports[i], desk.debug));
    }
}

} // verus!
