//! The search from the root: deeper and deeper until it is time to stop.

use vstd::prelude::*;

use std::sync::atomic::AtomicBool;
use std::sync::Arc;

use crate::chess;
use crate::chess::{Color, Move, Position};
use crate::clock;
use crate::clock::{now, since, ClockReading, Duration, SECOND};
use crate::game;
use crate::game::Game;
use crate::rules;
use crate::rules::{generate, Seat};
use crate::search::engine;
use crate::search::engine::{Engine, Reading, Timer};
use crate::search::limits::Limits;
use crate::search::model;
use crate::search::model::{Answer, Answers, Mind, Report, Round, Standing, Task};
use crate::search::options::Options;
use crate::search::ordering;
use crate::search::ordering::{hostile_squares, is_listed, order_key, rank, RootMove};
use crate::search::score;
use crate::search::score::{
    checkmate_score, discount_a_declinable_chance, draw_score, leaf_score, orient, score_for_gui,
    Score, INFINITY, MATE, MATE_IN_MAX_PLY, MAX_PLY,
};
use crate::search::table;
use crate::search::table::Table;

verus! {

/// A progress report from one completed iteration.
#[derive(Clone, Debug)]
pub struct SearchInfo {
    /// Iterative deepening depth just finished.
    pub depth: u32,
    /// Deepest ply reached anywhere in that iteration.
    pub seldepth: u32,
    /// The score, in GUI orientation.
    pub score: Score,
    /// The same position in the engine's own terms: how badly it is doing, with
    /// higher being better as far as it is concerned.
    pub sabotage: i32,
    /// Nodes visited so far this search.
    pub nodes: u64,
    /// Time spent so far.
    pub elapsed: Duration,
    /// The line the engine expects, starting with the move it intends to play.
    pub pv: Vec<Move>,
}

impl SearchInfo {
    /// Nodes per second.
    pub open spec fn rate(self) -> nat {
        if self.elapsed.total() == 0 {
            0
        } else {
            chess::smaller(
                (self.nodes * SECOND) / (self.elapsed.total() as int),
                u64::MAX as int,
            ) as nat
        }
    }

    /// Nodes per second, rounded down.
    pub fn nps(&self) -> (nps: u64)
        ensures
            nps == self.rate(),
    {
        let nanos: u128 = self.elapsed.as_nanos();
        if nanos == 0 {
            return 0;
        }
        proof {
            assert(self.nodes * SECOND <= u64::MAX * SECOND) by (nonlinear_arith)
                requires
                    0 <= self.nodes <= u64::MAX,
            ;
        }
        let rate: u128 = (self.nodes as u128 * SECOND) / nanos;
        if rate < 0xffff_ffff_ffff_ffff {
            rate as u64
        } else {
            u64::MAX
        }
    }

    /// The report, without the time it took.
    pub open spec fn report(self) -> Report {
        Report {
            depth: self.depth as nat,
            seldepth: self.seldepth as int,
            score: self.score,
            sabotage: self.sabotage as int,
            nodes: self.nodes,
            line: self.pv@,
        }
    }
}

/// What a finished search decided.
#[derive(Clone, Debug)]
pub struct SearchResult {
    /// The move to play, or `None` if the position has no legal moves.
    pub best_move: Option<Move>,
    /// The score of that move, in GUI orientation.
    pub score: Score,
    /// How badly the engine expects to be doing, in its own terms.
    pub sabotage: i32,
    /// Depth of the last completed iteration.
    pub depth: u32,
    /// Total nodes visited.
    pub nodes: u64,
    /// Wall-clock time spent.
    pub elapsed: Duration,
    /// The principal variation from the last completed iteration.
    pub pv: Vec<Move>,
}

/// A search under way.
pub struct Search {
    position: Position,
    roots: Vec<RootMove>,
    best: Option<Move>,
    sabotage: i32,
    depth: u32,
    line: Vec<Move>,
    finished: bool,
    max_depth: u32,
    started: std::time::Instant,
    /// The moves that are considered.
    allowed: Ghost<Seq<Move>>,
}

/// The report of a pass, where there is one.
pub open spec fn report_of(info: Option<SearchInfo>) -> Option<Report> {
    match info {
        Some(info) => Some(info.report()),
        None => None,
    }
}

/// The reports in a list.
pub open spec fn reports_of(infos: Seq<SearchInfo>) -> Seq<Report> {
    Seq::new(infos.len(), |i: int| infos[i].report())
}

/// Whether every root move is among those allowed, all of which are legal.
pub open spec fn drawn_from(
    roots: Seq<RootMove>,
    allowed: Seq<Move>,
    position: Position,
) -> bool {
    &&& forall|i: int| 0 <= i < roots.len() ==> allowed.contains((#[trigger] roots[i]).m)
    &&& forall|m: Move| #[trigger]
        allowed.contains(m) ==> rules::legal(position).contains(m) && m.on_board()
}

/// Whether a move scored best among root moves, and what its score was.
pub open spec fn scored_best(roots: Seq<RootMove>, best: Option<Move>, alpha: int) -> bool {
    &&& forall|i: int| 0 <= i < roots.len() ==> (#[trigger] roots[i]).score <= alpha
    &&& exists|i: int|
        0 <= i < roots.len() && Some((#[trigger] roots[i]).m) == best && roots[i].score == alpha
}

impl Search {
    /// Where the search stands.
    pub closed spec fn standing(self) -> Standing {
        Standing {
            roots: self.roots@,
            best: self.best,
            sabotage: self.sabotage as int,
            depth: self.depth as nat,
            line: self.line@,
            finished: self.finished,
        }
    }

    /// The position that is searched.
    pub closed spec fn position(self) -> Position {
        self.position
    }

    /// When it was begun.
    pub closed spec fn started(self) -> std::time::Instant {
        self.started
    }

    /// How deep it may go.
    pub closed spec fn max_depth(self) -> nat {
        self.max_depth as nat
    }

    /// The moves that are considered.
    pub closed spec fn allowed(self) -> Seq<Move> {
        self.allowed@
    }

    /// The move to play is one of those allowed, and there is one if any is
    /// allowed; the line begins with it, can be played, and is no longer than the
    /// depth.
    pub open spec fn wf(self) -> bool {
        let s = self.standing();
        &&& drawn_from(s.roots, self.allowed(), self.position())
        &&& score::within(s.sabotage, 0)
        &&& engine::playable_line(self.position(), s.line)
        &&& s.line.len() <= chess::larger(1, s.depth as int)
        &&& self.allowed().len() == 0 <==> s.best is None
        &&& s.roots.len() == 0 ==> s.finished
        &&& s.best matches Some(m) ==> {
            &&& self.allowed().contains(m)
            &&& s.line.len() > 0
            &&& s.line[0] == m
        }
        &&& s.best is None ==> s.line.len() == 0
    }
}

/// The depth of a pass as the recursion counts it.
fn ply_depth(depth: u32) -> (counted: i32)
    ensures
        counted == model::ply_depth(depth as nat),
        counted > i32::MIN,
{
    if depth > 0x7fff_ffff {
        i32::MAX
    } else {
        depth as i32
    }
}

/// The legal moves, or those of them that were asked for.
fn candidate_moves(position: &Position, wanted: &Vec<Move>) -> (found: Vec<Move>)
    ensures
        found@ == model::candidates(*position, wanted@),
        forall|i: int| 0 <= i < found.len() ==> rules::legal(*position).contains(
            #[trigger] found@[i],
        ) && found@[i].on_board(),
{
    let moves = generate(&Seat::sit(*position));
    let mut found: Vec<Move> = Vec::new();
    let ghost fits = |m: Move| wanted@.len() == 0 || wanted@.contains(m);
    let mut index: usize = 0;
    proof {
        assert(moves@.take(0).filter(fits) =~= Seq::<Move>::empty()) by {
            reveal(Seq::filter);
        }
    }
    while index < moves.len()
        invariant
            index <= moves.len(),
            moves@ == rules::legal(*position),
            fits == (|m: Move| wanted@.len() == 0 || wanted@.contains(m)),
            forall|i: int| 0 <= i < moves.len() ==> (#[trigger] moves@[i]).on_board(),
            found@ == moves@.take(index as int).filter(fits),
            forall|i: int| 0 <= i < found.len() ==> rules::legal(*position).contains(
                #[trigger] found@[i],
            ) && found@[i].on_board(),
        decreases moves.len() - index,
    {
        proof {
            let next = moves@.take(index + 1);
            assert(next.drop_last() =~= moves@.take(index as int));
            assert(next.last() == moves@[index as int]);
            reveal(Seq::filter);
        }
        let m = moves[index];
        if wanted.len() == 0 || is_listed(wanted, m) {
            found.push(m);
        }
        index += 1;
    }
    proof {
        assert(moves@.take(index as int) =~= moves@);
    }
    found
}

/// The candidates in the order of sabotage rather than the order the moves
/// happened to be generated in. Where two moves come back with the same score
/// the first one searched wins, and that tie should go to the move that looks
/// worse for us, not to whichever the move generator emitted first.
fn first_roots(position: &Position, moves: &Vec<Move>) -> (roots: Vec<RootMove>)
    requires
        forall|i: int| 0 <= i < moves.len() ==> (#[trigger] moves@[i]).on_board(),
    ensures
        roots@ == model::unscored(
            ordering::ranked(model::keyed(*position, position.turn, moves@), moves@.len()),
        ),
        roots.len() == moves.len(),
        forall|i: int| 0 <= i < roots.len() ==> moves@.contains((#[trigger] roots@[i]).m),
{
    let hostile: u64 = hostile_squares(position);
    let mut keyed: Vec<RootMove> = Vec::new();
    let ghost goal = model::keyed(*position, position.turn, moves@);
    while keyed.len() < moves.len()
        invariant
            keyed.len() <= moves.len(),
            goal == model::keyed(*position, position.turn, moves@),
            forall|i: int| 0 <= i < moves.len() ==> (#[trigger] moves@[i]).on_board(),
            crate::bits::holds_just(
                hostile,
                |s: int|
                    position.board.attacked(
                        position.turn.opposite(),
                        position.board.everything(),
                        s,
                    ),
            ),
            forall|i: int| 0 <= i < keyed.len() ==> #[trigger] keyed@[i] == goal[i],
        decreases moves.len() - keyed.len(),
    {
        let m = moves[keyed.len()];
        let key: i32 = order_key(position, m, hostile, position.turn, true, (None, None), None);
        keyed.push(RootMove { m, score: key });
    }
    proof {
        assert(keyed@ =~= goal);
    }
    let mut roots = rank(&keyed);
    let ghost ordered = roots@;
    proof {
        assert forall|i: int| 0 <= i < roots.len() implies moves@.contains(
            (#[trigger] roots@[i]).m,
        ) by {
            assert(keyed@.contains(roots@[i]));
            let j = choose|j: int| 0 <= j < keyed.len() && keyed@[j] == roots@[i];
            assert(keyed@[j].m == moves@[j]);
        }
    }
    let mut index: usize = 0;
    while index < roots.len()
        invariant
            index <= roots.len(),
            roots.len() == ordered.len(),
            roots.len() == moves.len(),
            forall|i: int|
                0 <= i < roots.len() ==> (#[trigger] roots@[i]).m == ordered[i].m && moves@.contains(
                    roots@[i].m,
                ),
            forall|i: int| 0 <= i < index ==> (#[trigger] roots@[i]).score == -INFINITY,
        decreases roots.len() - index,
    {
        let m = roots[index].m;
        roots[index] = RootMove { m, score: -INFINITY };
        index += 1;
    }
    proof {
        assert(roots@ =~= model::unscored(ordered));
    }
    roots
}

/// What an engine is asked to do when it is to search a position within limits: the
/// side to move is the victim, the settings say which way the engine leans, and the
/// limits say how long it may take.
pub open spec fn tasked(engine: Engine, position: Position, limits: Limits) -> Task {
    Task {
        options: engine.task().options,
        victim: position.turn,
        factor: engine.task().options.leaning(),
        node_limit: limits.nodes,
        budget: limits.allowance(position.turn),
    }
}

/// Whether a search from one state of an engine to another comes to a result, with
/// these reports: it did what it was asked to do, it is what the model says, given
/// the answers that the engine has heard, and every time is a reading of the clock
/// since the search began.
pub open spec fn ended(
    before: Engine,
    after: Engine,
    position: Position,
    trail: Seq<u64>,
    limits: Limits,
    result: SearchResult,
    reports: Seq<SearchInfo>,
) -> bool {
    let task = tasked(before, position, limits);
    &&& after.task() == task
    &&& after.attentive()
    &&& after.timed(result.elapsed)
    &&& forall|i: int| 0 <= i < reports.len() ==> after.timed((#[trigger] reports[i]).elapsed)
    &&& forall|answers: Answers| #[trigger]
        model::agrees(after.answers_heard(), answers) ==> {
            let (mind, standing, reported) = model::searched(
                task,
                answers,
                model::refreshed(before.mind(), trail),
                position,
                model::before_searching(position, limits.search_moves@),
                depth_limit(limits),
                seq![],
            );
            &&& after.mind() == mind
            &&& result.decides(standing, mind, task.factor)
            &&& reports_of(reports) == reported
        }
}

/// The deepest pass that the limits allow.
pub open spec fn depth_limit(limits: Limits) -> nat {
    match limits.depth {
        Some(depth) => if depth < 1 {
            1
        } else {
            depth as nat
        },
        None => (MAX_PLY - 4) as nat,
    }
}

/// A copy of a history.
fn copy_keys(keys: &[u64]) -> (copy: Vec<u64>)
    ensures
        copy@ == keys@,
{
    let mut copy: Vec<u64> = Vec::with_capacity(keys.len());
    let mut index: usize = 0;
    while index < keys.len()
        invariant
            index <= keys.len(),
            copy@ == keys@.take(index as int),
        decreases keys.len() - index,
    {
        copy.push(keys[index]);
        index += 1;
        proof {
            assert(copy@ =~= keys@.take(index as int));
        }
    }
    proof {
        assert(copy@ =~= keys@);
    }
    copy
}

/// A copy of a line.
fn copy_line(line: &Vec<Move>) -> (copy: Vec<Move>)
    ensures
        copy@ == line@,
{
    let mut copy: Vec<Move> = Vec::with_capacity(line.len());
    let mut index: usize = 0;
    while index < line.len()
        invariant
            index <= line.len(),
            copy@ == line@.take(index as int),
        decreases line.len() - index,
    {
        copy.push(line[index]);
        index += 1;
        proof {
            assert(copy@ =~= line@.take(index as int));
        }
    }
    proof {
        assert(copy@ =~= line@);
    }
    copy
}

impl Search {
    /// Whether there is nothing more to do.
    pub open spec fn is_over(self) -> bool {
        self.standing().finished || self.standing().depth >= self.max_depth()
    }
}

impl Engine {
    /// In the middle of a search that has been begun.
    pub open(crate) spec fn is_ready(self) -> bool {
        self.sane()
    }

    /// Forgets which moves refuted something.
    fn forget_killers(&mut self)
        requires
            old(self).wf(),
        ensures
            *final(self) == (Engine { killers: final(self).killers, ..*old(self) }),
            final(self).killers@ == Seq::new(
                old(self).killers@.len(),
                |i: int| (None::<Move>, None::<Move>),
            ),
    {
        let mut index: usize = 0;
        while index < self.killers.len()
            invariant
                *self == (Engine { killers: self.killers, ..*old(self) }),
                self.killers@.len() == old(self).killers@.len(),
                index <= self.killers.len(),
                forall|i: int|
                    0 <= i < index ==> #[trigger] self.killers@[i] == (
                        None::<Move>,
                        None::<Move>,
                    ),
            decreases self.killers.len() - index,
        {
            self.killers[index] = (None, None);
            index += 1;
        }
        proof {
            assert(self.killers@ =~= Seq::new(
                old(self).killers@.len(),
                |i: int| (None::<Move>, None::<Move>),
            ));
        }
    }

    /// Forgets the expected lines.
    fn forget_lines(&mut self)
        requires
            old(self).wf(),
        ensures
            *final(self) == (Engine { pv: final(self).pv, ..*old(self) }),
            engine::lines(final(self).pv@) == Seq::new(
                old(self).pv@.len(),
                |i: int| Seq::<Move>::empty(),
            ),
    {
        let mut index: usize = 0;
        while index < self.pv.len()
            invariant
                *self == (Engine { pv: self.pv, ..*old(self) }),
                self.pv@.len() == old(self).pv@.len(),
                index <= self.pv.len(),
                forall|i: int| 0 <= i < index ==> (#[trigger] self.pv@[i])@ == Seq::<Move>::empty(),
            decreases self.pv.len() - index,
        {
            self.pv[index].clear();
            index += 1;
        }
        proof {
            assert(engine::lines(self.pv@) =~= Seq::new(
                old(self).pv@.len(),
                |i: int| Seq::<Move>::empty(),
            ));
        }
    }

    /// Asks the clock, where there is a budget.
    fn out_of_time(&mut self) -> (late: bool)
        requires
            old(self).sane(),
        ensures
            final(self).steady(*old(self)),
            final(self).aborted == old(self).aborted,
            old(self).task().budget is None ==> !late && *final(self) == *old(self),
            old(self).task().budget matches Some(budget) ==> {
                &&& final(self).heard@.len() == old(self).heard@.len() + 1
                &&& late == model::late(final(self).heard@.last(), budget)
                &&& final(self).mind() == (Mind {
                    asked: old(self).mind().asked + 1,
                    ..old(self).mind()
                })
            },
    {
        let asked: Option<(ClockReading, bool)> = match &self.timer {
            Some(timer) => Some(timer.ask()),
            None => None,
        };
        match asked {
            Some((reading, late)) => {
                self.hear(Ghost(Reading::Clock(reading)));
                late
            },
            None => false,
        }
    }

    /// One pass over the root moves.
    fn pass(&mut self, position: &Position, depth: u32, roots: &mut Vec<RootMove>, Ghost(
        allowed,
    ): Ghost<Seq<Move>>) -> (found: (i32, Option<Move>, Vec<Move>))
        requires
            old(self).sane(),
            depth > 0,
            drawn_from(old(roots)@, allowed, *position),
        ensures
            final(self).sane(),
            final(self).task() == old(self).task(),
            final(self).undisturbed(*old(self)),
            final(self).path@ == old(self).path@,
            engine::extends(final(self).heard@, old(self).heard@),
            drawn_from(final(roots)@, allowed, *position),
            final(roots).len() == old(roots).len(),
            engine::playable_line(*position, found.2@),
            found.2@.len() <= depth,
            found.1 matches Some(m) ==> allowed.contains(m) && found.2.len() > 0 && found.2@[0]
                == m,
            !final(self).aborted && old(roots).len() > 0 ==> {
                &&& found.1 is Some
                &&& score::within(found.0 as int, 1)
                &&& scored_best(final(roots)@, found.1, found.0 as int)
            },
            forall|answers: Answers| #[trigger]
                model::agrees(final(self).heard@, answers) ==> model::pass(
                    old(self).task(),
                    answers,
                    old(self).mind(),
                    *position,
                    depth as nat,
                    model::unplayed(old(roots)@),
                ) == (
                    final(self).mind(),
                    (Round {
                        roots: final(roots)@,
                        tried: model::pass(
                            old(self).task(),
                            answers,
                            old(self).mind(),
                            *position,
                            depth as nat,
                            model::unplayed(old(roots)@),
                        ).1.tried,
                        alpha: found.0 as int,
                        best: found.1,
                        line: found.2@,
                    }),
                ),
    {
        let ghost task = self.task();
        let ghost begin = self.mind();
        let ghost start = model::unplayed(roots@);
        let seat = Seat::sit(*position);
        let mut alpha: i32 = -INFINITY;
        let mut best: Option<Move> = None;
        let mut line: Vec<Move> = Vec::new();
        let mut index: usize = 0;
        let ghost mut r = start;
        proof {
            assert(line@ =~= seq![]);
        }
        while index < roots.len()
            invariant
                index <= roots.len(),
                roots.len() == old(roots).len(),
                self.sane(),
                self.task() == old(self).task(),
                self.undisturbed(*old(self)),
                depth > 0,
                seat.here() == *position,
                line@.len() <= depth,
                task == self.task(),
                begin == old(self).mind(),
                start == model::unplayed(old(roots)@),
                self.path@ == old(self).path@,
                engine::extends(self.heard@, old(self).heard@),
                drawn_from(roots@, allowed, *position),
                engine::playable_line(*position, line@),
                best matches Some(m) ==> allowed.contains(m) && line.len() > 0 && line@[0] == m,
                index > 0 ==> best is Some && score::within(alpha as int, 1) && scored_best(
                    roots@.take(index as int),
                    best,
                    alpha as int,
                ),
                r == (Round {
                    roots: roots@,
                    tried: index as nat,
                    alpha: alpha as int,
                    best,
                    line: line@,
                }),
                forall|answers: Answers| #[trigger]
                    model::agrees(self.heard@, answers) ==> model::pass(
                        task,
                        answers,
                        begin,
                        *position,
                        depth as nat,
                        start,
                    ) == model::pass(task, answers, self.mind(), *position, depth as nat, r),
            decreases roots.len() - index,
        {
            let ghost before = self.mind();
            let ghost heard = self.heard@;
            let ghost earlier = r;
            let m = roots[index].m;
            proof {
                assert(allowed.contains(roots@[index as int].m));
            }
            let score: i32 = self.attempt(&seat, m, ply_depth(depth), 0, alpha, INFINITY);
            let ghost told = self.heard@;
            if self.aborted {
                proof {
                    assert forall|answers: Answers| #[trigger]
                        model::agrees(self.heard@, answers) implies model::pass(
                        task,
                        answers,
                        begin,
                        *position,
                        depth as nat,
                        start,
                    ) == (self.mind(), r) by {
                        engine::lemma_agrees(self.heard@, heard, answers);
                    }
                }
                return (alpha, best, line);
            }
            let ghost after = self.mind();
            self.can_abort = true;
            let ghost listed = roots@.take(index as int);
            let ghost (old_best, old_alpha) = (best, alpha);
            roots[index] = RootMove { m, score };
            if index == 0 || score > alpha {
                alpha = score;
                best = Some(m);
                line = self.line_with(0, m);
                proof {
                    crate::search::recursion::lemma_longer_line(*position, m, after.pv[1]);
                }
            }
            index += 1;
            proof {
                let now = roots@.take(index as int);
                assert(now =~= listed.push(RootMove { m, score }));
                if index == 1 || score > old_alpha {
                    assert(Some(now[index - 1].m) == best);
                } else {
                    let i = choose|i: int|
                        0 <= i < listed.len() && Some((#[trigger] listed[i]).m) == old_best
                            && listed[i].score == old_alpha;
                    assert(now[i] == listed[i]);
                }
                assert forall|i: int| 0 <= i < now.len() implies (#[trigger] now[i]).score
                    <= alpha by {
                    if i < index - 1 {
                        assert(now[i] == listed[i]);
                    }
                }
                r = model::tallied(earlier, score as int, after.pv[1]);
                assert(self.mind() == (Mind { can_abort: true, ..after }));
                assert forall|answers: Answers| #[trigger]
                    model::agrees(self.heard@, answers) implies model::pass(
                    task,
                    answers,
                    begin,
                    *position,
                    depth as nat,
                    start,
                ) == model::pass(task, answers, self.mind(), *position, depth as nat, r) by {
                    engine::lemma_agrees(self.heard@, heard, answers);
                }
            }
        }
        proof {
            assert(roots@.take(index as int) =~= roots@);
        }
        (alpha, best, line)
    }

    /// Gets ready to search a position.
    ///
    /// The side to move is the victim. Nothing of an earlier search is left but
    /// what the table knows.
    pub fn begin(&mut self, game: &Game, limits: &Limits, stop: Arc<AtomicBool>) -> (search: Search)
        requires
            old(self).wf(),
            old(self).task().options.in_range(),
        ensures
            final(self).wf(),
            final(self).is_ready(),
            final(self).task() == tasked(*old(self), game.current(), *limits),
            final(self).mind() == model::refreshed(old(self).mind(), game.trail()),
            final(self).answers_heard() == Seq::<Answer>::empty(),
            final(self).flag() == Some(stop),
            search.begun_by(*final(self), *game, *limits),
    {
        self.prepare(game, limits, Some(stop))
    }

    /// Gets ready to search a position, with or without a flag that says stop.
    fn prepare(&mut self, game: &Game, limits: &Limits, stop: Option<Arc<AtomicBool>>) -> (search:
        Search)
        requires
            old(self).wf(),
            old(self).task().options.in_range(),
        ensures
            final(self).is_ready(),
            final(self).task() == tasked(*old(self), game.current(), *limits),
            final(self).mind() == model::refreshed(old(self).mind(), game.trail()),
            final(self).answers_heard() == Seq::<Answer>::empty(),
            final(self).flag() == stop,
            search.begun_by(*final(self), *game, *limits),
    {
        let started = now();
        let position = *game.position();
        self.victim = position.turn;
        self.factor = self.options.factor();
        self.stop = stop;
        self.node_limit = limits.nodes;
        self.timer = match limits.budget(position.turn) {
            Some(budget) => Some(Timer { started, budget }),
            None => None,
        };
        self.can_abort = false;
        self.aborted = false;
        self.nodes = 0;
        self.seldepth = 0;
        self.path = copy_keys(game.keys());
        self.forget_killers();
        self.forget_lines();
        self.heard = Ghost(Seq::empty());
        self.readings = Ghost(Seq::empty());
        self.began = Ghost(Some(started));

        let moves = candidate_moves(&position, &limits.search_moves);
        let ghost allowed = moves@;
        let roots = first_roots(&position, &moves);
        let max_depth: u32 = match limits.depth {
            Some(depth) => if depth < 1 {
                1
            } else {
                depth
            },
            None => 60,
        };
        let mut line: Vec<Move> = Vec::new();
        let mut best: Option<Move> = None;
        if roots.len() > 0 {
            best = Some(roots[0].m);
            line.push(roots[0].m);
        }
        proof {
            if roots.len() > 0 {
                let m = roots@[0].m;
                assert(moves@.contains(roots@[0].m));
                assert(line@ =~= seq![m]);
                assert(line@.drop_first() =~= seq![]);
                assert(engine::playable_line(rules::after(position, m), line@.drop_first()));
            } else {
                assert(line@ =~= seq![]);
            }
            assert(self.path@ =~= game.trail());
        }
        let finished: bool = roots.len() == 0;
        Search {
            position,
            roots,
            best,
            sabotage: 0,
            depth: 0,
            line,
            finished,
            max_depth,
            started,
            allowed: Ghost(allowed),
        }
    }

    /// Searches a ply deeper and reports on it, or returns `None` where the search
    /// is over: it is finished, as deep as it should go, or told to stop.
    pub fn deepen(&mut self, search: &mut Search) -> (info: Option<SearchInfo>)
        requires
            old(self).is_ready(),
            old(search).wf(),
        ensures
            final(self).wf(),
            final(self).is_ready(),
            final(search).wf(),
            final(self).task() == old(self).task(),
            final(self).undisturbed(*old(self)),
            final(self).attentive(),
            final(search).started() == old(search).started(),
            final(self).mind().path == old(self).mind().path,
            engine::extends(final(self).answers_heard(), old(self).answers_heard()),
            final(search).position() == old(search).position(),
            final(search).max_depth() == old(search).max_depth(),
            final(search).allowed() == old(search).allowed(),
            old(search).is_over() ==> info is None && *final(self) == *old(self) && *final(search)
                == *old(search),
            !old(search).is_over() ==> forall|answers: Answers| #[trigger]
                model::agrees(final(self).answers_heard(), answers) ==> model::deepened(
                    old(self).task(),
                    answers,
                    old(self).mind(),
                    old(search).position(),
                    old(search).standing(),
                ) == (final(self).mind(), final(search).standing(), report_of(info)),
            info matches Some(info) ==> {
                &&& clock::clocked(info.elapsed, old(search).started())
                &&& final(search).standing().depth == old(search).standing().depth + 1
                &&& engine::playable_line(old(search).position(), info.pv@)
                &&& info.pv@.len() <= info.depth
                &&& scored_best(
                    final(search).standing().roots,
                    final(search).standing().best,
                    score::oriented(old(self).task().factor, info.sabotage as int),
                )
            },
            info is None ==> final(search).is_over() && final(search).standing().depth == old(
                search,
            ).standing().depth,
    {
        if search.finished || search.depth >= search.max_depth {
            return None;
        }
        let ghost allowed = search.allowed@;
        let ghost standing = search.standing();
        let ghost mind = self.mind();
        let ghost task = self.task();
        let depth: u32 = search.depth + 1;
        let position = search.position;
        self.seldepth = 0;
        let (alpha, best, line) = self.pass(
            &position,
            depth,
            &mut search.roots,
            Ghost(allowed),
        );
        let ghost told = self.heard@;
        let ghost after = self.mind();
        if self.aborted {
            search.finished = true;
            return None;
        }
        let roots = rank(&search.roots);
        proof {
            lemma_ranking_keeps_the_best(search.roots@, best, alpha as int);
            assert forall|i: int| 0 <= i < roots.len() implies allowed.contains(
                (#[trigger] roots@[i]).m,
            ) by {
                assert(search.roots@.contains(roots@[i]));
            }
        }
        let sabotage: i32 = orient(self.factor, alpha);
        let reading = since(&search.started);
        let info = SearchInfo {
            depth,
            seldepth: self.seldepth as u32,
            score: score_for_gui(self.factor, alpha),
            sabotage,
            nodes: self.nodes,
            elapsed: reading.elapsed(),
            pv: copy_line(&line),
        };
        search.roots = roots;
        search.best = best;
        search.sabotage = sabotage;
        search.depth = depth;
        search.line = line;
        // A forced result is as far as thinking can take us.
        let forced: bool = alpha >= MATE_IN_MAX_PLY || alpha <= -MATE_IN_MAX_PLY;
        let late: bool = !forced && self.out_of_time();
        search.finished = forced || late;
        proof {
            assert forall|answers: Answers| #[trigger]
                model::agrees(self.heard@, answers) implies model::deepened(
                task,
                answers,
                mind,
                position,
                standing,
            ) == (self.mind(), search.standing(), report_of(Some(info))) by {
                engine::lemma_agrees(self.heard@, told, answers);
                if !forced && task.budget is Some {
                    assert(self.heard@[told.len() as int] == answers(told.len() as int));
                }
            }
        }
        Some(info)
    }

    /// What the search has decided so far.
    pub fn finish(&self, search: &Search) -> (result: SearchResult)
        requires
            self.is_ready(),
            search.wf(),
        ensures
            result.decides(search.standing(), self.mind(), self.task().factor),
            search.concluded_by(result),
            clock::clocked(result.elapsed, search.started()),
    {
        let reading = since(&search.started);
        proof {
            assert(reading.start() == search.started());
        }
        SearchResult {
            best_move: search.best,
            score: score_for_gui(self.factor, orient(self.factor, search.sabotage)),
            sabotage: search.sabotage,
            depth: search.depth,
            nodes: self.nodes,
            elapsed: reading.elapsed(),
            pv: copy_line(&search.line),
        }
    }

    /// Search a position, adding a report on each completed iteration to
    /// `reports`.
    ///
    /// Every so often the search asks `stop`, and the clock where there is a budget:
    /// each answer that counts was read from there. Setting `stop` asks the search to return
    /// as soon as it can; it will always return a legal move if one exists.
    pub fn search(
        &mut self,
        game: &Game,
        limits: &Limits,
        stop: Arc<AtomicBool>,
        reports: &mut Vec<SearchInfo>,
    ) -> (result: SearchResult)
        requires
            old(self).wf(),
            old(self).task().options.in_range(),
        ensures
            final(self).wf(),
            final(self).flag() == Some(stop),
            final(self).mind().entries.len() == old(self).mind().entries.len(),
            final(self).mind().path == game.trail(),
            result.answers(game.current(), model::candidates(game.current(), limits.search_moves@)),
            old(reports)@.len() <= final(reports)@.len(),
            forall|i: int|
                old(reports)@.len() <= i < final(reports)@.len() ==> engine::playable_line(
                    game.current(),
                    (#[trigger] final(reports)@[i]).pv@,
                ),
            final(reports)@.take(old(reports)@.len() as int) == old(reports)@,
            ended(
                *old(self),
                *final(self),
                game.current(),
                game.trail(),
                *limits,
                result,
                final(reports)@.skip(old(reports)@.len() as int),
            ),
    {
        self.think(game, limits, Some(stop), reports)
    }

    /// Searches a position, with or without a flag that says stop.
    pub(crate) fn think(
        &mut self,
        game: &Game,
        limits: &Limits,
        stop: Option<Arc<AtomicBool>>,
        reports: &mut Vec<SearchInfo>,
    ) -> (result: SearchResult)
        requires
            old(self).wf(),
            old(self).task().options.in_range(),
        ensures
            final(self).wf(),
            final(self).flag() == stop,
            final(self).mind().entries.len() == old(self).mind().entries.len(),
            final(self).mind().path == game.trail(),
            result.answers(game.current(), model::candidates(game.current(), limits.search_moves@)),
            old(reports)@.len() <= final(reports)@.len(),
            forall|i: int|
                old(reports)@.len() <= i < final(reports)@.len() ==> engine::playable_line(
                    game.current(),
                    (#[trigger] final(reports)@[i]).pv@,
                ),
            final(reports)@.take(old(reports)@.len() as int) == old(reports)@,
            ended(
                *old(self),
                *final(self),
                game.current(),
                game.trail(),
                *limits,
                result,
                final(reports)@.skip(old(reports)@.len() as int),
            ),
    {
        let mut search = self.prepare(game, limits, stop);
        let ghost task = self.task();
        let ghost begin = self.mind();
        let ghost first = search.standing();
        let ghost max = search.max_depth();
        let ghost count = reports@.len() as int;
        let ghost earlier = reports@;
        proof {
            assert(reports_of(reports@.skip(count)) =~= seq![]);
            assert(reports@.take(count) =~= earlier);
        }
        let mut over: bool = false;
        while !over
            invariant
                self.wf(),
                self.is_ready(),
                search.wf(),
                self.task() == task,
                self.flag() == stop,
                self.began() == Some(search.started()),
                forall|i: int|
                    count <= i < reports@.len() ==> self.timed((#[trigger] reports@[i]).elapsed),
                self.mind().entries.len() == old(self).mind().entries.len(),
                self.mind().path == game.trail(),
                search.position() == game.current(),
                search.max_depth() == max,
                search.allowed() == model::candidates(game.current(), limits.search_moves@),
                over ==> search.is_over(),
                0 <= count <= reports@.len(),
                reports@.take(count) == earlier,
                forall|i: int|
                    count <= i < reports@.len() ==> engine::playable_line(
                        game.current(),
                        (#[trigger] reports@[i]).pv@,
                    ),
                forall|answers: Answers| #[trigger]
                    model::agrees(self.answers_heard(), answers) ==> model::searched(
                        task,
                        answers,
                        begin,
                        game.current(),
                        first,
                        max,
                        seq![],
                    ) == model::searched(
                        task,
                        answers,
                        self.mind(),
                        game.current(),
                        search.standing(),
                        max,
                        reports_of(reports@.skip(count)),
                    ),
            decreases
                    max - search.standing().depth,
                    if over {
                        0int
                    } else {
                        1int
                    },
        {
            let ghost heard = self.answers_heard();
            let ghost mind = self.mind();
            let ghost standing = search.standing();
            let ghost gathered = reports_of(reports@.skip(count));
            let ghost listed = reports@;
            match self.deepen(&mut search) {
                Some(info) => {
                    reports.push(info);
                    proof {
                        assert(reports@.take(count) =~= listed.take(count));
                        assert(reports_of(reports@.skip(count)) =~= gathered.push(info.report()));
                    }
                },
                None => {
                    over = true;
                },
            }
            proof {
                assert forall|answers: Answers| #[trigger]
                    model::agrees(self.answers_heard(), answers) implies model::searched(
                    task,
                    answers,
                    begin,
                    game.current(),
                    first,
                    max,
                    seq![],
                ) == model::searched(
                    task,
                    answers,
                    self.mind(),
                    game.current(),
                    search.standing(),
                    max,
                    reports_of(reports@.skip(count)),
                ) by {
                    engine::lemma_agrees(self.answers_heard(), heard, answers);
                }
            }
        }
        self.finish(&search)
    }

    /// Search a position and return the move to play, ignoring progress
    /// reports. Convenient for tests and for embedding.
    pub fn best_move(&mut self, game: &Game, limits: &Limits) -> (best: Option<Move>)
        requires
            old(self).wf(),
            old(self).task().options.in_range(),
        ensures
            final(self).wf(),
            final(self).task() == tasked(*old(self), game.current(), *limits),
            final(self).flag() is None,
            final(self).attentive(),
            final(self).mind().entries.len() == old(self).mind().entries.len(),
            best is Some <==> model::candidates(game.current(), limits.search_moves@).len() > 0,
            best matches Some(m) ==> model::candidates(
                game.current(),
                limits.search_moves@,
            ).contains(m) && rules::legal(game.current()).contains(m) && m.on_board(),
            forall|answers: Answers| #[trigger]
                model::agrees(final(self).answers_heard(), answers) ==> {
                    let (mind, standing, _) = model::searched(
                        tasked(*old(self), game.current(), *limits),
                        answers,
                        model::refreshed(old(self).mind(), game.trail()),
                        game.current(),
                        model::before_searching(game.current(), limits.search_moves@),
                        depth_limit(*limits),
                        seq![],
                    );
                    final(self).mind() == mind && best == standing.best
                },
            limits.allowance(game.current().turn) is None ==> never_told(
                final(self).answers_heard(),
            ),
    {
        let mut reports: Vec<SearchInfo> = Vec::new();
        let result = self.think(game, limits, None, &mut reports);
        proof {
            if self.task().budget is None {
                law_nobody_interrupts(*self);
            }
        }
        result.best_move
    }

    /// An engine with default options.
    pub fn new() -> (engine: Engine)
        ensures
            engine.wf(),
            engine.knows_nothing(),
            engine.task().options == Options::usual(),
            engine.task().options.in_range(),
            engine.task().victim == Color::White,
            engine.task().factor == 100,
            engine.has_table_of(Options::usual().hash_mb),
    {
        Engine::with_options(Options::default())
    }

    /// An engine with the given options.
    pub fn with_options(options: Options) -> (engine: Engine)
        requires
            options.table_fits(),
        ensures
            engine.wf(),
            engine.knows_nothing(),
            engine.task().options == options,
            engine.task().victim == Color::White,
            engine.task().factor == 100,
            engine.has_table_of(options.hash_mb),
    {
        let table = Table::with_capacity_mb(options.hash_mb);
        let mut killers: Vec<(Option<Move>, Option<Move>)> = Vec::new();
        let mut pv: Vec<Vec<Move>> = Vec::new();
        while pv.len() < MAX_PLY + 1
            invariant
                pv.len() == killers.len(),
                pv.len() <= MAX_PLY + 1,
                forall|i: int|
                    0 <= i < killers.len() ==> #[trigger] killers@[i] == (
                        None::<Move>,
                        None::<Move>,
                    ),
            decreases MAX_PLY + 1 - pv.len(),
        {
            pv.push(Vec::new());
            killers.push((None, None));
        }
        Engine {
            options,
            victim: Color::White,
            factor: 100,
            table,
            stop: None,
            timer: None,
            node_limit: None,
            can_abort: false,
            aborted: false,
            nodes: 0,
            seldepth: 0,
            path: Vec::new(),
            killers,
            pv,
            heard: Ghost(Seq::empty()),
            readings: Ghost(Seq::empty()),
            began: Ghost(None),
        }
    }

    /// The table is as large as a power of two allows within so many mebibytes.
    pub open spec fn has_table_of(self, megabytes: usize) -> bool {
        table::fills(self.mind().entries.len(), megabytes as nat, table::entry_bytes())
    }

    /// Nothing is remembered about any position, and no move is known to have
    /// refuted anything.
    pub open spec fn knows_nothing(self) -> bool {
        &&& self.mind().entries == table::empty(self.mind().entries.len())
        &&& forall|i: int|
            0 <= i < self.mind().killers.len() ==> #[trigger] self.mind().killers[i] == (
                None::<Move>,
                None::<Move>,
            )
    }

    /// Changes the settings. The table keeps its size until
    /// [`Engine::resize_table`] is called.
    pub fn configure(&mut self, options: Options)
        requires
            old(self).wf(),
        ensures
            final(self).wf(),
            final(self).task() == (Task { options, ..old(self).task() }),
            final(self).mind() == old(self).mind(),
            final(self).undisturbed(*old(self)),
            final(self).answers_heard() == old(self).answers_heard(),
    {
        self.options = options;
    }

    /// Rebuild the transposition table at the size in [`Options::hash_mb`].
    pub fn resize_table(&mut self)
        requires
            old(self).wf(),
            old(self).task().options.table_fits(),
        ensures
            final(self).wf(),
            final(self).task() == old(self).task(),
            final(self).mind() == (Mind {
                entries: final(self).mind().entries,
                ..old(self).mind()
            }),
            final(self).mind().entries == table::empty(final(self).mind().entries.len()),
            final(self).has_table_of(old(self).task().options.hash_mb),
            final(self).flag() == old(self).flag(),
            final(self).clock_start() == old(self).clock_start(),
            final(self).began() == old(self).began(),
            final(self).answers_heard() == old(self).answers_heard(),
    {
        self.table = Table::with_capacity_mb(self.options.hash_mb);
    }

    /// Forget everything learned about previous positions.
    pub fn clear(&mut self)
        requires
            old(self).wf(),
        ensures
            final(self).wf(),
            final(self).knows_nothing(),
            final(self).task() == old(self).task(),
            final(self).mind() == (Mind {
                entries: final(self).mind().entries,
                killers: final(self).mind().killers,
                ..old(self).mind()
            }),
            final(self).undisturbed(*old(self)),
            final(self).answers_heard() == old(self).answers_heard(),
    {
        self.table.clear();
        self.forget_killers();
    }

    /// What it is worth that a player is checkmated at a ply.
    pub fn checkmate_score(&self, mated: Color, ply: usize) -> (value: i32)
        requires
            ply <= MAX_PLY,
        ensures
            value == score::mate_value(self.task().factor, self.task().victim, mated, ply as int),
    {
        checkmate_score(self.factor, self.victim, mated, ply)
    }

    /// What a draw is worth.
    pub fn draw_score(&self) -> (value: i32)
        requires
            self.task().options.draw_penalty > i32::MIN,
        ensures
            value == score::draw_value(self.task().factor, self.task().options),
    {
        draw_score(self.factor, &self.options)
    }

    /// What a position is worth as it stands.
    pub fn leaf_score(&self, position: &Position) -> (value: i32)
        requires
            self.wf(),
            self.task().options.weights.fits(),
        ensures
            value == score::leaf_value(
                self.task().factor,
                self.task().victim,
                self.task().options,
                *position,
            ),
    {
        leaf_score(self.factor, self.victim, &self.options, position)
    }

    /// What a position is worth to us when the opponent has a chance to punish
    /// us but does not have to take it.
    pub fn discount_a_declinable_chance(&self, best: i32, floor: i32) -> (value: i32)
        ensures
            value == score::declinable(
                best as int,
                floor as int,
                self.task().options.opportunity_bonus as int,
            ),
    {
        discount_a_declinable_chance(best, floor, self.options.opportunity_bonus)
    }

    /// Flip a badness score into internal orientation, and back again. At full
    /// malice this does nothing; below 50 the engine wants the opposite of
    /// everything, mates and draws included.
    pub fn orient(&self, badness: i32) -> (value: i32)
        requires
            badness > i32::MIN,
        ensures
            value == score::oriented(self.task().factor, badness as int),
    {
        orient(self.factor, badness)
    }

    /// Convert an internal score into what a GUI expects: positive when the
    /// engine is winning, negative when it is losing, mate distances in moves.
    pub fn score_for_gui(&self, internal: i32) -> (score: Score)
        requires
            internal > i32::MIN,
        ensures
            score == score::shown(self.task().factor, internal as int),
    {
        score_for_gui(self.factor, internal)
    }
}

impl Default for Engine {
    fn default() -> (engine: Engine)
        ensures
            engine.wf(),
            engine.knows_nothing(),
            engine.task().options == Options::usual(),
            engine.task().options.in_range(),
            engine.task().victim == Color::White,
            engine.task().factor == 100,
            engine.has_table_of(Options::usual().hash_mb),
    {
        Engine::new()
    }
}

impl SearchResult {
    /// The result says where the search stood at its end.
    pub open spec fn decides(self, s: Standing, mind: Mind, factor: int) -> bool {
        &&& self.best_move == s.best
        &&& self.score == score::shown(factor, score::oriented(factor, s.sabotage))
        &&& self.sabotage == s.sabotage
        &&& self.depth == s.depth
        &&& self.nodes == mind.nodes
        &&& self.pv@ == s.line
    }

    /// The move to play is one of those allowed, there is one if any is allowed,
    /// and the line that is expected begins with it, can be played, and is no longer
    /// than the depth.
    pub open spec fn answers(self, position: Position, allowed: Seq<Move>) -> bool {
        &&& self.best_move is Some <==> allowed.len() > 0
        &&& engine::playable_line(position, self.pv@)
        &&& self.pv@.len() <= chess::larger(1, self.depth as int)
        &&& self.best_move is None <==> self.pv@.len() == 0
        &&& self.best_move matches Some(m) ==> {
            &&& allowed.contains(m)
            &&& rules::legal(position).contains(m)
            &&& m.on_board()
            &&& self.pv@[0] == m
        }
    }
}

impl Search {
    /// This search has just been begun, by an engine that is to search the position
    /// of a game within limits.
    pub open spec fn begun_by(self, engine: Engine, game: Game, limits: Limits) -> bool {
        &&& self.wf()
        &&& self.position() == game.current()
        &&& self.allowed() == model::candidates(game.current(), limits.search_moves@)
        &&& self.standing() == model::before_searching(game.current(), limits.search_moves@)
        &&& self.max_depth() == depth_limit(limits)
        &&& engine.began() == Some(self.started())
        &&& engine.task().budget is Some ==> engine.clock_start() == Some(self.started())
    }

    /// The result is one that this search can come to.
    pub open spec fn concluded_by(self, result: SearchResult) -> bool {
        result.answers(self.position(), self.allowed())
    }
}

/// Ranking changes nothing about which move scored best.
proof fn lemma_ranking_keeps_the_best(roots: Seq<RootMove>, best: Option<Move>, alpha: int)
    requires
        scored_best(roots, best, alpha),
    ensures
        scored_best(ordering::ranked(roots, roots.len()), best, alpha),
{
    let ranked = ordering::ranked(roots, roots.len());
    ordering::law_ranking_puts_the_best_first(roots, roots.len());
    assert(roots.take(roots.len() as int) =~= roots);
    ranked.to_multiset_ensures();
    roots.to_multiset_ensures();
    let i = choose|i: int|
        0 <= i < roots.len() && Some((#[trigger] roots[i]).m) == best && roots[i].score == alpha;
    assert(roots.contains(roots[i]));
    assert(ranked.to_multiset().count(roots[i]) > 0);
    assert(ranked.contains(roots[i]));
    let j = choose|j: int| 0 <= j < ranked.len() && ranked[j] == roots[i];
    assert(Some(ranked[j].m) == best && ranked[j].score == alpha);
    assert forall|k: int| 0 <= k < ranked.len() implies (#[trigger] ranked[k]).score <= alpha by {
        assert(ranked.contains(ranked[k]));
        assert(roots.to_multiset().count(ranked[k]) > 0);
        assert(roots.contains(ranked[k]));
        let l = choose|l: int| 0 <= l < roots.len() && roots[l] == ranked[k];
        assert(roots[l].score <= alpha);
    }
}

/// The moves of a line that can be played name squares of the board.
pub proof fn lemma_line_on_board(position: Position, line: Seq<Move>)
    requires
        engine::playable_line(position, line),
    ensures
        forall|i: int| 0 <= i < line.len() ==> (#[trigger] line[i]).on_board(),
    decreases line.len(),
{
    if line.len() > 0 {
        lemma_line_on_board(rules::after(position, line[0]), line.drop_first());
        assert forall|i: int| 0 <= i < line.len() implies (#[trigger] line[i]).on_board() by {
            if i > 0 {
                assert(line.drop_first()[i - 1] == line[i]);
            }
        }
    }
}

/// Nothing leaks from one search into the next but what the table knows: two
/// engines with the same table begin a search alike, whatever they searched
/// before.
pub proof fn law_only_the_table_outlives_a_search(one: Engine, other: Engine, trail: Seq<u64>)
    requires
        one.wf(),
        other.wf(),
        one.mind().entries == other.mind().entries,
    ensures
        model::refreshed(one.mind(), trail) == model::refreshed(other.mind(), trail),
{
    assert(model::refreshed(one.mind(), trail).pv =~= model::refreshed(other.mind(), trail).pv);
    assert(model::refreshed(one.mind(), trail).killers =~= model::refreshed(
        other.mind(),
        trail,
    ).killers);
}

/// Whether nothing but a flag that was never up has answered.
pub open spec fn never_told(heard: Seq<Answer>) -> bool {
    forall|i: int| 0 <= i < heard.len() ==> #[trigger] heard[i] == Answer::Flag(false)
}

/// Where there is neither a flag nor a clock, nobody interrupts a search.
pub proof fn law_nobody_interrupts(engine: Engine)
    requires
        engine.attentive(),
        engine.flag() is None,
        engine.task().budget is None,
    ensures
        never_told(engine.answers_heard()),
{
    assert forall|i: int| 0 <= i < engine.answers_heard().len() implies (
        #[trigger] engine.answers_heard()[i]) == Answer::Flag(false) by {}
}

/// A cleared engine searches as a fresh one does: with a table of the same number
/// of mebibytes, the same settings, and nobody to stop it, it comes to the same result
/// with the same reports, whatever it searched before.
pub proof fn law_a_cleared_engine_searches_as_a_fresh_one(
    cleared: Engine,
    cleared_after: Engine,
    result: SearchResult,
    reports: Seq<SearchInfo>,
    fresh: Engine,
    fresh_after: Engine,
    fresh_result: SearchResult,
    fresh_reports: Seq<SearchInfo>,
    position: Position,
    trail: Seq<u64>,
    limits: Limits,
    megabytes: usize,
)
    requires
        cleared.wf() && cleared.knows_nothing() && cleared.has_table_of(megabytes),
        fresh.wf() && fresh.knows_nothing() && fresh.has_table_of(megabytes),
        cleared.task().options == fresh.task().options,
        ended(cleared, cleared_after, position, trail, limits, result, reports),
        ended(fresh, fresh_after, position, trail, limits, fresh_result, fresh_reports),
        never_told(cleared_after.answers_heard()),
        never_told(fresh_after.answers_heard()),
    ensures
        result.best_move == fresh_result.best_move,
        result.score == fresh_result.score,
        result.sabotage == fresh_result.sabotage,
        result.depth == fresh_result.depth,
        result.nodes == fresh_result.nodes,
        result.pv@ == fresh_result.pv@,
        reports_of(reports) == reports_of(fresh_reports),
{
    table::law_a_table_has_one_size(
        cleared.mind().entries.len(),
        fresh.mind().entries.len(),
        megabytes as nat,
        table::entry_bytes(),
    );
    law_only_the_table_outlives_a_search(cleared, fresh, trail);
    let answers: Answers = |i: int| Answer::Flag(false);
    assert(model::agrees(cleared_after.answers_heard(), answers));
    assert(model::agrees(fresh_after.answers_heard(), answers));
}

/// With no moves asked for, every legal move is considered, so a move is found
/// if there is one.
pub proof fn law_every_legal_move_is_considered(position: Position)
    ensures
        model::candidates(position, seq![]) == rules::legal(position),
{
    let all = |m: Move| Seq::<Move>::empty().len() == 0 || Seq::<Move>::empty().contains(m);
    lemma_filter_everything(rules::legal(position), all);
    assert(model::candidates(position, seq![]) =~= rules::legal(position));
}

proof fn lemma_filter_everything(moves: Seq<Move>, all: spec_fn(Move) -> bool)
    requires
        forall|m: Move| #[trigger] all(m),
    ensures
        moves.filter(all) == moves,
    decreases moves.len(),
{
    reveal(Seq::filter);
    if moves.len() > 0 {
        lemma_filter_everything(moves.drop_last(), all);
        assert(all(moves.last()));
        assert(moves.drop_last().push(moves.last()) =~= moves);
    }
}

/// Where moves are asked for, just the legal ones among them are considered.
pub proof fn law_only_wanted_moves_are_considered(position: Position, wanted: Seq<Move>, m: Move)
    requires
        wanted.len() > 0,
    ensures
        model::candidates(position, wanted).contains(m) <==> rules::legal(position).contains(m)
            && wanted.contains(m),
{
    let fits = |m: Move| wanted.len() == 0 || wanted.contains(m);
    let legal = rules::legal(position);
    if model::candidates(position, wanted).contains(m) {
        let i = choose|i: int| 0 <= i < legal.filter(fits).len() && legal.filter(fits)[i] == m;
        legal.lemma_filter_pred(fits, i);
        lemma_filter_adds_nothing(legal, fits, i);
    }
    if legal.contains(m) && wanted.contains(m) {
        let i = choose|i: int| 0 <= i < legal.len() && legal[i] == m;
        assert(fits(legal[i]));
        legal.lemma_filter_contains(fits, i);
    }
}

proof fn lemma_filter_adds_nothing(moves: Seq<Move>, fits: spec_fn(Move) -> bool, i: int)
    requires
        0 <= i < moves.filter(fits).len(),
    ensures
        moves.contains(moves.filter(fits)[i]),
    decreases moves.len(),
{
    reveal(Seq::filter);
    if moves.len() > 0 {
        let before = moves.drop_last();
        if i < before.filter(fits).len() {
            lemma_filter_adds_nothing(before, fits, i);
            let m = before.filter(fits)[i];
            let j = choose|j: int| 0 <= j < before.len() && before[j] == m;
            assert(moves[j] == m);
        } else {
            assert(moves[moves.len() - 1] == moves.last());
        }
    }
}

/// A search goes as deep as it is asked to, and at least one ply; one that is not asked
/// for a depth goes up to sixty.
pub proof fn law_a_search_goes_as_deep_as_asked(limits: Limits)
    ensures
        limits.depth matches Some(depth) ==> depth <= depth_limit(limits) && depth_limit(limits) >= 1
            && (depth >= 1 ==> depth_limit(limits) == depth) && (depth == 0 ==> depth_limit(limits)
            == 1),
        limits.depth is None ==> depth_limit(limits) == 60,
{
}

/// The player to move is the one who is to lose, whoever that is, and what bounds a
/// search is what its limits say.
pub proof fn law_whoever_moves_is_the_victim(engine: Engine, position: Position, limits: Limits)
    ensures
        ({
            let task = tasked(engine, position, limits);
            &&& task.victim == position.turn
            &&& task.node_limit == limits.nodes
            &&& task.options == engine.task().options
            &&& engine.task().options.malice >= 100 ==> task.factor == 100
            &&& engine.task().options.malice <= 0 ==> task.factor == -100
            &&& task.budget == limits.allowance(position.turn)
        }),
{
}

/// A result plays the move that the search stood by, with the line that begins with it,
/// and rates it for the player who moves: the closer to defeat, the lower, whichever way
/// the engine leans.
pub proof fn law_a_result_rates_what_it_plays(
    result: SearchResult,
    s: Standing,
    mind: Mind,
    factor: int,
)
    requires
        result.decides(s, mind, factor),
        factor != 0,
        -MATE <= s.sabotage <= MATE,
    ensures
        result.best_move == s.best,
        result.pv@ == s.line,
        result.sabotage == s.sabotage,
        result.depth == s.depth,
        result.nodes == mind.nodes,
        -MATE_IN_MAX_PLY < s.sabotage < MATE_IN_MAX_PLY ==> result.score == Score::Centipawns(
            (-s.sabotage) as i32,
        ),
        s.sabotage >= MATE_IN_MAX_PLY ==> (result.score matches Score::Mate(moves) && moves <= 0),
        s.sabotage <= -MATE_IN_MAX_PLY ==> (result.score matches Score::Mate(moves) && moves >= 0),
{
}

/// A report says what was found, each thing in its place.
pub proof fn law_a_report_says_what_was_found(info: SearchInfo)
    ensures
        info.report().depth == info.depth,
        info.report().seldepth == info.seldepth,
        info.report().score == info.score,
        info.report().sabotage == info.sabotage,
        info.report().nodes == info.nodes,
        info.report().line == info.pv@,
{
}

} // verus!
