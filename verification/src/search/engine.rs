//! The engine, and the recursion at the heart of it.

use vstd::prelude::*;

use std::sync::atomic::AtomicBool;
use std::sync::Arc;

use crate::bits;
use crate::chess::{Color, Move, Position};
use crate::clock;
use crate::clock::{is_raised, since, ClockReading, Duration, FlagReading};
use crate::game::repeats;
use crate::rules;
use crate::search::model;
use crate::search::model::{Answer, Answers, Mind, Node, Progress, Task, NODES_BETWEEN_QUESTIONS};
use crate::search::options::{OpponentModel, Options};
use crate::search::ordering;
use crate::search::ordering::{hostile_squares, order_key};
use crate::search::score;
use crate::search::score::MAX_PLY;
use crate::search::table;
use crate::search::table::Table;

verus! {

/// The engine: options, a transposition table, and the state of one search.
pub struct Engine {
    /// Tunable settings. Changing [`Options::hash_mb`] takes effect on the next
    /// call to [`Engine::resize_table`].
    pub options: Options,
    /// The side that is trying to lose.
    pub victim: Color,
    /// `100` for full sabotage, `-100` for ordinary chess, scaled by malice.
    pub factor: i32,
    pub(crate) table: Table,
    /// The flag that says stop, where there is one.
    pub(crate) stop: Option<Arc<AtomicBool>>,
    pub(crate) timer: Option<Timer>,
    pub(crate) node_limit: Option<u64>,
    pub(crate) can_abort: bool,
    pub(crate) aborted: bool,
    pub(crate) nodes: u64,
    pub(crate) seldepth: usize,
    pub(crate) path: Vec<u64>,
    pub(crate) killers: Vec<(Option<Move>, Option<Move>)>,
    pub(crate) pv: Vec<Vec<Move>>,
    /// What the flag and the clock have answered in this search.
    pub(crate) heard: Ghost<Seq<Answer>>,
    /// The readings of the flag and the clock that these answers are.
    pub(crate) readings: Ghost<Seq<Reading>>,
    /// When the last search began.
    pub(crate) began: Ghost<Option<std::time::Instant>>,
}

/// When a search began, and how long it may take.
pub(crate) struct Timer {
    pub started: std::time::Instant,
    pub budget: Duration,
}

impl Timer {
    /// Reads the clock, and tells whether the search has taken as long as it may.
    pub(crate) fn ask(&self) -> (answer: (ClockReading, bool))
        ensures
            answer.0.start() == self.started,
            answer.1 == model::late(Answer::Clock(answer.0.nanos()), self.budget.total()),
    {
        let reading = since(&self.started);
        let late: bool = reading.elapsed().as_nanos() >= self.budget.as_nanos();
        (reading, late)
    }
}

/// A reading of the flag or of the clock.
pub ghost enum Reading {
    Flag(FlagReading),
    /// There was no flag to read, so that nobody could raise it.
    NoFlag,
    Clock(ClockReading),
}

impl Reading {
    /// What the reading says.
    pub open spec fn answer(self) -> Answer {
        match self {
            Reading::Flag(reading) => Answer::Flag(reading.up()),
            Reading::NoFlag => Answer::Flag(false),
            Reading::Clock(reading) => Answer::Clock(reading.nanos()),
        }
    }

    /// Whether it is of this flag, or of the clock since this moment.
    pub open spec fn is_of(
        self,
        flag: Option<Arc<AtomicBool>>,
        start: Option<std::time::Instant>,
    ) -> bool {
        match self {
            Reading::Flag(reading) => Some(reading.flag()) == flag,
            Reading::NoFlag => flag is None,
            Reading::Clock(reading) => Some(reading.start()) == start,
        }
    }
}

/// A line for each ply, as sequences.
pub open spec fn lines(pv: Seq<Vec<Move>>) -> Seq<Seq<Move>> {
    Seq::new(pv.len(), |i: int| pv[i]@)
}

/// Whether moves can be played one after the other.
pub open spec fn playable_line(position: Position, line: Seq<Move>) -> bool
    decreases line.len(),
{
    line.len() == 0 || {
        &&& rules::legal(position).contains(line[0])
        &&& line[0].on_board()
        &&& playable_line(rules::after(position, line[0]), line.drop_first())
    }
}

/// Whether a history goes on from another.
pub open spec fn extends(now: Seq<Answer>, before: Seq<Answer>) -> bool {
    &&& before.len() <= now.len()
    &&& forall|i: int| 0 <= i < before.len() ==> #[trigger] now[i] == before[i]
}

/// A move weighed with its window, for the loop over the moves of a node.
#[derive(Clone, Copy)]
pub(crate) struct Trial {
    pub tried: usize,
    pub alpha: i32,
    pub beta: i32,
    pub best: i32,
    pub best_move: Option<Move>,
    pub floor: i32,
    pub done: bool,
}

impl Trial {
    pub(crate) open spec fn progress(self) -> Progress {
        Progress {
            tried: self.tried as nat,
            alpha: self.alpha as int,
            beta: self.beta as int,
            best: self.best as int,
            best_move: self.best_move,
            floor: self.floor as int,
            done: self.done,
        }
    }

    /// Whether the scores are ones that can come up at a ply.
    pub(crate) open spec fn within(self, ply: int) -> bool {
        score::within(self.best as int, ply) && score::within(self.floor as int, ply)
    }
}

/// What the loop over the moves of a node has to know about it.
#[derive(Clone, Copy)]
pub(crate) struct Place {
    pub depth: i32,
    pub ply: usize,
    pub maximizing: bool,
    pub hopeful: bool,
    pub considered: usize,
}

impl Place {
    /// Whether this is about a node.
    pub(crate) open spec fn is_of(self, node: Node) -> bool {
        &&& self.depth == node.depth
        &&& self.ply == node.ply
        &&& self.maximizing == node.maximizing
        &&& self.hopeful == node.hopeful
        &&& self.considered == node.considered
        &&& node.depth > 0
        &&& node.ply + 2 < MAX_PLY
        &&& node.moves == rules::legal(node.position)
        &&& node.keys.len() == node.moves.len()
        &&& 1 <= node.considered <= node.moves.len()
        &&& forall|i: int| 0 <= i < node.moves.len() ==> (#[trigger] node.moves[i]).on_board()
    }
}

/// Answers that agree with what was heard agree with what was heard before.
pub(crate) proof fn lemma_agrees(now: Seq<Answer>, before: Seq<Answer>, answers: Answers)
    requires
        extends(now, before),
        model::agrees(now, answers),
    ensures
        model::agrees(before, answers),
{
    assert forall|i: int| 0 <= i < before.len() implies before[i] == #[trigger] answers(i) by {
        assert(now[i] == before[i]);
    }
}

impl Engine {
    /// What the current search is asked to do.
    pub open(crate) spec fn task(self) -> Task {
        Task {
            options: self.options,
            victim: self.victim,
            factor: self.factor as int,
            node_limit: self.node_limit,
            budget: match self.timer {
                Some(timer) => Some(timer.budget.total()),
                None => None,
            },
        }
    }

    /// What the engine has learned so far.
    pub open(crate) spec fn mind(self) -> Mind {
        Mind {
            entries: self.table.entries(),
            killers: self.killers@,
            pv: lines(self.pv@),
            path: self.path@,
            nodes: self.nodes,
            seldepth: self.seldepth as int,
            can_abort: self.can_abort,
            aborted: self.aborted,
            asked: self.heard@.len(),
        }
    }

    /// What the flag and the clock have answered in this search.
    pub open(crate) spec fn answers_heard(self) -> Seq<Answer> {
        self.heard@
    }

    /// The flag that is asked whether to stop, where there is one.
    pub open(crate) spec fn flag(self) -> Option<Arc<AtomicBool>> {
        self.stop
    }

    /// The moment from which the budget counts, where there is one.
    pub open(crate) spec fn clock_start(self) -> Option<std::time::Instant> {
        match self.timer {
            Some(timer) => Some(timer.started),
            None => None,
        }
    }

    /// When the last search began, if there was one.
    pub open(crate) spec fn began(self) -> Option<std::time::Instant> {
        self.began@
    }

    /// Whether a span was read from the clock, as the time since the last search
    /// began.
    pub open spec fn timed(self, span: Duration) -> bool {
        self.began() matches Some(start) && clock::clocked(span, start)
    }

    /// Every answer that counts is a reading of the engine's flag, or of the clock
    /// since the search began.
    pub open(crate) spec fn attentive(self) -> bool {
        &&& self.readings@.len() == self.heard@.len()
        &&& forall|i: int|
            0 <= i < self.heard@.len() ==> {
                &&& (#[trigger] self.heard@[i]) == self.readings@[i].answer()
                &&& self.readings@[i].is_of(self.flag(), self.clock_start())
            }
    }

    /// The same flag and the same clock are asked as before, and the table is as
    /// large as it was.
    pub open spec fn undisturbed(self, before: Engine) -> bool {
        &&& self.flag() == before.flag()
        &&& self.clock_start() == before.clock_start()
        &&& self.began() == before.began()
        &&& self.mind().entries.len() == before.mind().entries.len()
    }

    /// Room for every ply, and a table with scores that can be turned round.
    pub open spec fn wf(self) -> bool {
        &&& self.mind().killers.len() == MAX_PLY + 1
        &&& self.mind().pv.len() == MAX_PLY + 1
        &&& table::sound(self.mind().entries)
        &&& -100 <= self.task().factor <= 100
    }

    /// In a state to search: no score can leave the range of an `i32`.
    pub(crate) open spec fn sane(self) -> bool {
        &&& self.wf()
        &&& self.options.in_range()
        &&& self.options.weights.fits()
        &&& self.seldepth <= MAX_PLY
        &&& self.attentive()
    }

    /// What every step of a search keeps.
    pub(crate) open spec fn steady(self, before: Engine) -> bool {
        &&& self.sane()
        &&& self.task() == before.task()
        &&& self.undisturbed(before)
        &&& self.path@ == before.path@
        &&& self.can_abort == before.can_abort
        &&& extends(self.heard@, before.heard@)
        &&& before.aborted ==> self.aborted
        &&& self.node_limit is Some && self.can_abort && before.nodes <= self.node_limit->0
            ==> self.nodes <= self.node_limit->0
    }

    /// Whether the player to move is trying to make the score go up.
    pub(crate) fn maximizes(&self, turn: Color) -> (up: bool)
        ensures
            up == model::maximizing(self.task(), turn),
    {
        turn == self.victim || self.options.model == OpponentModel::Optimistic
    }

    /// Whether the game is already over as a draw. The current position's hash
    /// is the last entry on the path, so repetition needs no extra bookkeeping.
    pub(crate) fn is_drawn(&self, position: &Position) -> (over: bool)
        ensures
            over == model::drawn(*position, self.mind().path),
    {
        position.halfmoves >= 100 || position.is_insufficient_material() || repeats(
            self.path.as_slice(),
            position.halfmoves,
        )
    }

    /// Remembers a reading of the flag or of the clock.
    pub(crate) fn hear(&mut self, Ghost(reading): Ghost<Reading>)
        requires
            old(self).attentive(),
            reading.is_of(old(self).flag(), old(self).clock_start()),
        ensures
            final(self).attentive(),
            *final(self) == (Engine {
                heard: final(self).heard,
                readings: final(self).readings,
                ..*old(self)
            }),
            final(self).heard@ == old(self).heard@.push(reading.answer()),
    {
        self.heard = Ghost(self.heard@.push(reading.answer()));
        self.readings = Ghost(self.readings@.push(reading));
        proof {
            assert forall|i: int| 0 <= i < self.heard@.len() implies {
                &&& (#[trigger] self.heard@[i]) == self.readings@[i].answer()
                &&& self.readings@[i].is_of(self.flag(), self.clock_start())
            } by {
                if i < old(self).heard@.len() {
                    assert(self.heard@[i] == old(self).heard@[i]);
                }
            }
        }
    }

    /// Reads the flag that says stop, where there is one, and remembers what it
    /// said.
    fn is_told_to_stop(&mut self) -> (told: bool)
        requires
            old(self).attentive(),
        ensures
            final(self).attentive(),
            *final(self) == (Engine {
                heard: final(self).heard,
                readings: final(self).readings,
                ..*old(self)
            }),
            final(self).heard@ == old(self).heard@.push(Answer::Flag(told)),
    {
        match &self.stop {
            Some(flag) => {
                let reading = is_raised(flag);
                self.hear(Ghost(Reading::Flag(reading)));
                reading.is_up()
            },
            None => {
                self.hear(Ghost(Reading::NoFlag));
                false
            },
        }
    }

    /// Asks whether to stop, and remembers the answer.
    pub(crate) fn check_stop(&mut self) -> (stop: bool)
        requires
            old(self).sane(),
        ensures
            final(self).steady(*old(self)),
            stop == final(self).aborted,
            final(self).pv@ == old(self).pv@,
            final(self).nodes == old(self).nodes,
            !stop && final(self).can_abort && final(self).node_limit is Some
                ==> final(self).nodes < final(self).node_limit->0,
            forall|answers: Answers| #[trigger]
                model::agrees(final(self).heard@, answers) ==> final(self).mind()
                    == model::consulted(old(self).task(), answers, old(self).mind()),
    {
        if self.aborted {
            return true;
        }
        if !self.can_abort {
            return false;
        }
        if let Some(limit) = self.node_limit {
            if self.nodes >= limit {
                self.aborted = true;
                return true;
            }
        }
        if self.nodes % NODES_BETWEEN_QUESTIONS != 0 {
            return false;
        }
        let raised: bool = self.is_told_to_stop();
        let ghost flagged = self.heard@;
        if raised {
            self.aborted = true;
            return true;
        }
        let asked: Option<(ClockReading, bool)> = match &self.timer {
            Some(timer) => Some(timer.ask()),
            None => None,
        };
        if let Some((reading, late)) = asked {
            self.hear(Ghost(Reading::Clock(reading)));
            proof {
                assert(self.heard@[old(self).heard@.len() as int] == Answer::Flag(raised));
                assert(self.heard@[flagged.len() as int] == Answer::Clock(reading.nanos()));
            }
            self.aborted = late;
        }
        self.aborted
    }

    /// Asks whether to stop; if not, counts a node.
    pub(crate) fn enter(&mut self, ply: usize) -> (stop: bool)
        requires
            old(self).sane(),
            ply <= MAX_PLY,
        ensures
            final(self).steady(*old(self)),
            stop == final(self).aborted,
            final(self).pv@ == old(self).pv@,
            forall|answers: Answers| #[trigger]
                model::agrees(final(self).heard@, answers) ==> {
                    let asked = model::consulted(old(self).task(), answers, old(self).mind());
                    final(self).mind() == if stop {
                        asked
                    } else {
                        asked.counting(ply as nat)
                    }
                },
    {
        if self.check_stop() {
            return true;
        }
        if self.nodes < u64::MAX {
            self.nodes += 1;
        }
        if self.seldepth < ply {
            self.seldepth = ply;
        }
        false
    }

    /// The keys by which the moves of a position are ordered.
    pub(crate) fn order_keys(
        &self,
        position: &Position,
        moves: &Vec<Move>,
        ply: usize,
        tt_move: Option<Move>,
        maximizing: bool,
    ) -> (keys: Vec<i32>)
        requires
            self.wf(),
            ply <= MAX_PLY,
            moves@ == rules::legal(*position),
            forall|i: int| 0 <= i < moves.len() ==> (#[trigger] moves@[i]).on_board(),
        ensures
            keys@ == model::order_keys(
                *position,
                self.victim,
                maximizing,
                self.mind().killers[ply as int],
                tt_move,
            ),
    {
        let hostile: u64 = hostile_squares(position);
        let killers = self.killers[ply];
        let mut keys: Vec<i32> = Vec::new();
        while keys.len() < moves.len()
            invariant
                keys.len() <= moves.len(),
                moves@ == rules::legal(*position),
                forall|i: int| 0 <= i < moves.len() ==> (#[trigger] moves@[i]).on_board(),
                bits::holds_just(
                    hostile,
                    |s: int|
                        position.board.attacked(
                            position.turn.opposite(),
                            position.board.everything(),
                            s,
                        ),
                ),
                forall|i: int|
                    0 <= i < keys.len() ==> #[trigger] keys@[i] == ordering::order_value(
                        *position,
                        moves@[i],
                        self.victim,
                        maximizing,
                        killers,
                        tt_move,
                    ),
            decreases moves.len() - keys.len(),
        {
            let m = moves[keys.len()];
            keys.push(order_key(position, m, hostile, self.victim, maximizing, killers, tt_move));
        }
        proof {
            assert(keys@ =~= model::order_keys(
                *position,
                self.victim,
                maximizing,
                killers,
                tt_move,
            ));
        }
        keys
    }

    /// A move and what is expected to follow it.
    pub(crate) fn line_with(&self, ply: usize, m: Move) -> (line: Vec<Move>)
        requires
            self.wf(),
            ply + 1 <= MAX_PLY,
        ensures
            line@ == seq![m] + self.mind().pv[ply + 1],
    {
        let mut line: Vec<Move> = Vec::new();
        line.push(m);
        let mut index: usize = 0;
        let ghost tail = self.pv@[ply + 1]@;
        while index < self.pv[ply + 1].len()
            invariant
                self.pv@.len() == MAX_PLY + 1,
                ply + 1 <= MAX_PLY,
                tail == self.pv@[ply + 1]@,
                index <= tail.len(),
                line@ == seq![m] + tail.take(index as int),
            decreases tail.len() - index,
        {
            line.push(self.pv[ply + 1][index]);
            index += 1;
            proof {
                assert(line@ =~= seq![m] + tail.take(index as int));
            }
        }
        proof {
            assert(line@ =~= seq![m] + tail);
        }
        line
    }

    /// Puts a move in front of what is expected to follow it.
    pub(crate) fn update_pv(&mut self, ply: usize, m: Move)
        requires
            old(self).sane(),
            ply + 1 <= MAX_PLY,
        ensures
            final(self).steady(*old(self)),
            final(self).mind() == old(self).mind().expecting(ply as nat, m),
    {
        let line = self.line_with(ply, m);
        self.pv[ply] = line;
        proof {
            assert(lines(self.pv@) =~= lines(old(self).pv@).update(ply as int, line@));
        }
    }

    /// Remembers a quiet move that refuted something.
    pub(crate) fn remember_killer(&mut self, ply: usize, m: Move)
        requires
            old(self).sane(),
            ply <= MAX_PLY,
        ensures
            final(self).steady(*old(self)),
            final(self).pv@ == old(self).pv@,
            final(self).mind() == old(self).mind().crediting(ply as nat, m),
    {
        let killers = self.killers[ply];
        if killers.0 != Some(m) {
            self.killers[ply] = (Some(m), killers.0);
        }
    }
}

} // verus!
