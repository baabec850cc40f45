//! The recursion at the heart of the search.

use vstd::prelude::*;

use crate::chess;
use crate::chess::{Color, Move, Position, Role};
use crate::eval::piece_value;
use crate::game;
use crate::rules;
use crate::rules::{generate, play, zobrist_hash, Seat};
use crate::search::engine;
use crate::search::engine::{Engine, Place, Trial};
use crate::search::model;
use crate::search::model::{
    Answer, Answers, Mind, Node, Progress, Skirmish, Task, DELTA_MARGIN, NARROW_BELOW_DEPTH,
    QUIESCENCE_PLIES,
};
use crate::search::ordering;
use crate::search::ordering::{exchange_key, least, loud_moves, select};
use crate::search::score;
use crate::search::score::{
    checkmate_score, discount_a_declinable_chance, draw_score, from_table, leaf_score, to_table,
    INFINITY, MATE, MAX_PLY,
};
use crate::search::table;
use crate::search::table::Bound;

verus! {

/// The keys by which exchanges are ordered.
fn exchange_keys(position: &Position, moves: &Vec<Move>, victim: Color, maximizing: bool) -> (keys:
    Vec<i32>)
    ensures
        keys@ == model::exchange_keys(*position, moves@, victim, maximizing),
{
    let mut keys: Vec<i32> = Vec::new();
    while keys.len() < moves.len()
        invariant
            keys.len() <= moves.len(),
            forall|i: int|
                0 <= i < keys.len() ==> #[trigger] keys@[i] == ordering::exchange_value(
                    *position,
                    moves@[i],
                    victim,
                    maximizing,
                ),
        decreases moves.len() - keys.len(),
    {
        let m = moves[keys.len()];
        keys.push(exchange_key(position, m, victim, maximizing));
    }
    proof {
        assert(keys@ =~= model::exchange_keys(*position, moves@, victim, maximizing));
    }
    keys
}

/// Whether every square that the moves name is on the board.
pub(crate) open spec fn all_on_board(moves: Seq<Move>) -> bool {
    forall|i: int| 0 <= i < moves.len() ==> (#[trigger] moves[i]).on_board()
}

/// The legal moves, generated unless they are already known.
fn legal_moves(seat: &Seat, generated: Option<Vec<Move>>) -> (moves: Vec<Move>)
    requires
        generated matches Some(moves) ==> moves@ == rules::legal(seat.here()) && all_on_board(moves@),
    ensures
        moves@ == rules::legal(seat.here()),
        all_on_board(moves@),
{
    match generated {
        Some(moves) => moves,
        None => generate(seat),
    }
}

/// Whether an exchange cannot reach what has already been found.
///
/// Delta pruning: an exchange can only move the score so far, and anything that
/// cannot reach what has already been found is not worth playing out.
fn is_hopeless(m: Move, maximizing: bool, in_check: bool, stand_pat: i32, best: i32, Ghost(
    node,
): Ghost<Skirmish>) -> (hopeless: bool)
    requires
        node.maximizing == maximizing,
        node.in_check == in_check,
        node.stand_pat == stand_pat,
    ensures
        hopeless == model::hopeless(node, best as int, m),
{
    if in_check || !maximizing {
        return false;
    }
    let taken = match m.capture() {
        Some(role) => role,
        None => Role::Pawn,
    };
    let swing: i64 = piece_value(taken) as i64 + piece_value(m.role()) as i64 + DELTA_MARGIN as i64;
    stand_pat as i64 + swing <= best as i64
}

/// After an exchange has come back with a score.
fn fought(trial: Trial, maximizing: bool, score: i32, Ghost(node): Ghost<Skirmish>) -> (next: Trial)
    requires
        node.maximizing == maximizing,
        trial.tried < usize::MAX,
    ensures
        next.progress() == model::fought(node, trial.progress(), score as int),
        next.tried == trial.tried + 1,
        next.best == trial.best || next.best == score,
{
    let mut next = trial;
    next.tried = trial.tried + 1;
    if maximizing {
        next.best = trial.best.max(score);
        next.alpha = trial.alpha.max(next.best);
    } else {
        next.best = trial.best.min(score);
        next.beta = trial.beta.min(next.best);
    }
    next.done = next.alpha >= next.beta;
    next
}

/// Whether the exchanges of a position come to the same from one state as from
/// another, whatever is still to be heard.
spec fn fight_alike(
    heard: Seq<Answer>,
    task: Task,
    node: Skirmish,
    a: (Mind, Progress),
    b: (Mind, Progress),
) -> bool {
    forall|answers: Answers| #[trigger]
        model::agrees(heard, answers) ==> model::skirmishes(task, answers, a.0, node, a.1)
            == model::skirmishes(task, answers, b.0, node, b.1)
}

/// Whether the exchanges of a position come to a value from a state.
spec fn fight_ends(
    heard: Seq<Answer>,
    task: Task,
    node: Skirmish,
    a: (Mind, Progress),
    end: (Mind, int),
) -> bool {
    forall|answers: Answers| #[trigger]
        model::agrees(heard, answers) ==> model::skirmishes(task, answers, a.0, node, a.1) == end
}

/// A hopeless exchange is passed over.
proof fn lemma_skipped(
    heard: Seq<Answer>,
    task: Task,
    node: Skirmish,
    a: (Mind, Progress),
    b: (Mind, Progress),
)
    requires
        fight_alike(heard, task, node, a, b),
        !b.1.done && b.1.tried < node.moves.len() && node.ply < MAX_PLY && node.remaining > 0,
        model::hopeless(
            node,
            b.1.best,
            ordering::nth_pick(node.moves, node.keys, b.1.tried),
        ),
    ensures
        fight_alike(heard, task, node, a, (b.0, Progress { tried: b.1.tried + 1, ..b.1 })),
{
    reveal(model::skirmishes);
}

/// An exchange that was played out ends the fight where the search is broken off,
/// and else takes it a step further.
proof fn lemma_fought(
    heard: Seq<Answer>,
    now: Seq<Answer>,
    task: Task,
    node: Skirmish,
    a: (Mind, Progress),
    b: (Mind, Progress),
    came: (Mind, int),
)
    requires
        fight_alike(heard, task, node, a, b),
        engine::extends(now, heard),
        !b.1.done && b.1.tried < node.moves.len() && node.ply < MAX_PLY && node.remaining > 0,
        !model::hopeless(
            node,
            b.1.best,
            ordering::nth_pick(node.moves, node.keys, b.1.tried),
        ),
        forall|answers: Answers| #[trigger]
            model::agrees(now, answers) ==> model::quiescence(
                task,
                answers,
                b.0,
                rules::after(
                    node.position,
                    ordering::nth_pick(node.moves, node.keys, b.1.tried),
                ),
                node.ply + 1,
                (node.remaining - 1) as nat,
                b.1.alpha,
                b.1.beta,
            ) == came,
    ensures
        came.0.aborted ==> fight_ends(now, task, node, a, (came.0, b.1.best)),
        !came.0.aborted ==> fight_alike(
            now,
            task,
            node,
            a,
            (came.0, model::fought(node, b.1, came.1)),
        ),
{
    reveal(model::skirmishes);
    reveal(model::quiescence);
    assert forall|answers: Answers| #[trigger] model::agrees(now, answers) implies model::agrees(
        heard,
        answers,
    ) by {
        engine::lemma_agrees(now, heard, answers);
    }
}

/// With no exchange left the fight is over.
proof fn lemma_fought_out(
    heard: Seq<Answer>,
    task: Task,
    node: Skirmish,
    a: (Mind, Progress),
    b: (Mind, Progress),
)
    requires
        fight_alike(heard, task, node, a, b),
        b.1.done || b.1.tried >= node.moves.len(),
    ensures
        fight_ends(heard, task, node, a, (b.0, b.1.best)),
{
    reveal(model::skirmishes);
}

impl Engine {
    /// Play out captures and promotions so the evaluation is not applied in the
    /// middle of a trade.
    ///
    /// `remaining` bounds how far this can go. Captures run out on their own,
    /// but check evasions do not: a long series of checks would otherwise
    /// recurse past [`MAX_PLY`]. `generated` holds the legal moves, where they
    /// are already known.
    pub(crate) fn quiescence(
        &mut self,
        seat: &Seat,
        ply: usize,
        remaining: u32,
        alpha: i32,
        beta: i32,
        generated: Option<Vec<Move>>,
    ) -> (value: i32)
        requires
            old(self).sane(),
            ply + 2 <= MAX_PLY,
            generated matches Some(moves) ==> moves@ == rules::legal(seat.here()) && all_on_board(
                moves@,
            ),
        ensures
            final(self).steady(*old(self)),
            final(self).pv@ == old(self).pv@,
            score::within(value as int, ply as int),
            forall|answers: Answers| #[trigger]
                model::agrees(final(self).heard@, answers) ==> model::quiescence(
                    old(self).task(),
                    answers,
                    old(self).mind(),
                    seat.here(),
                    ply as nat,
                    remaining as nat,
                    alpha as int,
                    beta as int,
                ) == (final(self).mind(), value as int),
        decreases MAX_PLY - ply, 1nat,
    {
        reveal(model::quiescence);
        reveal(model::skirmishes);
        let position = seat.position();
        if self.enter(ply) {
            return 0;
        }
        // Repetition is not checked here. Everything the quiescence search
        // follows is a capture or a promotion, which resets the halfmove clock
        // and makes repetition impossible, and hashing every node to prove that
        // costs more than it is worth.
        if position.halfmoves >= 100 || position.is_insufficient_material() {
            return draw_score(self.factor, &self.options);
        }
        if remaining == 0 || ply + 2 >= MAX_PLY {
            return leaf_score(self.factor, self.victim, &self.options, position);
        }
        let maximizing: bool = self.maximizes(position.turn);
        let mut trial = Trial {
            tried: 0,
            alpha,
            beta,
            best: if maximizing {
                -INFINITY
            } else {
                INFINITY
            },
            best_move: None,
            floor: INFINITY,
            done: false,
        };
        let ghost heard = self.heard@;
        if position.is_check() {
            // Evasions are not captures, so they do not shrink the position the
            // way the rest of the quiescence search does. Only follow them
            // while there is real budget left, or a long series of checks would
            // grow without bound.
            let moves = legal_moves(seat, generated);
            if moves.len() == 0 {
                return checkmate_score(self.factor, self.victim, position.turn, ply);
            }
            if remaining < QUIESCENCE_PLIES - 1 {
                return leaf_score(self.factor, self.victim, &self.options, position);
            }
            let value: i32 = self.skirmishes(seat, ply, remaining, moves, true, 0, trial);
            proof {
                assert forall|answers: Answers| #[trigger]
                    model::agrees(self.heard@, answers) implies model::agrees(heard, answers) by {
                    engine::lemma_agrees(self.heard@, heard, answers);
                }
            }
            return value;
        }
        let stand_pat: i32 = leaf_score(self.factor, self.victim, &self.options, position);
        if maximizing {
            if stand_pat >= beta {
                return stand_pat;
            }
            trial.alpha = alpha.max(stand_pat);
        } else {
            if stand_pat <= alpha {
                return stand_pat;
            }
            trial.beta = beta.min(stand_pat);
        }
        trial.best = stand_pat;
        let legal = legal_moves(seat, generated);
        let moves = loud_moves(position, &legal);
        let value: i32 = self.skirmishes(
            seat,
            ply,
            remaining,
            moves,
            false,
            stand_pat,
            trial,
        );
        proof {
            assert forall|answers: Answers| #[trigger]
                model::agrees(self.heard@, answers) implies model::agrees(heard, answers) by {
                engine::lemma_agrees(self.heard@, heard, answers);
            }
        }
        value
    }

    /// Plays out the exchanges of a position, one after the other.
    fn skirmishes(
        &mut self,
        seat: &Seat,
        ply: usize,
        remaining: u32,
        exchanges: Vec<Move>,
        in_check: bool,
        stand_pat: i32,
        start: Trial,
    ) -> (value: i32)
        requires
            old(self).sane(),
            ply + 2 < MAX_PLY,
            remaining > 0,
            start.tried == 0,
            score::within(start.best as int, ply as int),
            forall|i: int| 0 <= i < exchanges.len() ==> rules::legal(seat.here()).contains(
                #[trigger] exchanges@[i],
            ) && exchanges@[i].on_board(),
        ensures
            final(self).steady(*old(self)),
            final(self).pv@ == old(self).pv@,
            score::within(value as int, ply as int),
            forall|answers: Answers| #[trigger]
                model::agrees(final(self).heard@, answers) ==> model::skirmishes(
                    old(self).task(),
                    answers,
                    old(self).mind(),
                    model::skirmish_at(
                        old(self).task(),
                        seat.here(),
                        ply as nat,
                        remaining as nat,
                        exchanges@,
                        in_check,
                        stand_pat as int,
                    ),
                    start.progress(),
                ) == (final(self).mind(), value as int),
        decreases MAX_PLY - ply, 0nat,
    {
        let ghost task = self.task();
        let ghost begin = self.mind();
        let position = seat.position();
        let maximizing: bool = self.maximizes(position.turn);
        let ghost node = model::skirmish_at(
            task,
            seat.here(),
            ply as nat,
            remaining as nat,
            exchanges@,
            in_check,
            stand_pat as int,
        );
        let mut keys = exchange_keys(position, &exchanges, self.victim, maximizing);
        let mut moves = exchanges;
        let mut trial = start;
        while !trial.done && trial.tried < moves.len()
            invariant
                self.steady(*old(self)),
                self.pv@ == old(self).pv@,
                task == old(self).task(),
                begin == old(self).mind(),
                ply + 2 < MAX_PLY,
                remaining > 0,
                node == model::skirmish_at(
                    task,
                    seat.here(),
                    ply as nat,
                    remaining as nat,
                    exchanges@,
                    in_check,
                    stand_pat as int,
                ),
                maximizing == node.maximizing,
                moves.len() == exchanges.len(),
                keys.len() == exchanges.len(),
                (moves@, keys@) == ordering::arranged(node.moves, node.keys, trial.tried as nat),
                forall|i: int| 0 <= i < exchanges.len() ==> (#[trigger] exchanges@[i]).on_board()
                    && rules::legal(seat.here()).contains(exchanges@[i]),
                trial.tried <= moves.len(),
                score::within(trial.best as int, ply as int),
                fight_alike(
                    self.heard@,
                    task,
                    node,
                    (begin, start.progress()),
                    (self.mind(), trial.progress()),
                ),
            decreases moves.len() - trial.tried,
        {
            let ghost before = trial.progress();
            let ghost mind = self.mind();
            let ghost heard = self.heard@;
            select(&mut moves, &mut keys, trial.tried);
            let m = moves[trial.tried];
            proof {
                ordering::lemma_arranged(node.moves, node.keys, (trial.tried + 1) as nat);
                assert(exchanges@.contains(m));
                assert(m == ordering::nth_pick(node.moves, node.keys, before.tried));
            }
            if is_hopeless(m, maximizing, in_check, stand_pat, trial.best, Ghost(node)) {
                trial.tried += 1;
                proof {
                    lemma_skipped(heard, task, node, (begin, start.progress()), (mind, before));
                }
                continue ;
            }
            let child = play(seat, m);
            let score: i32 = self.quiescence(
                &child,
                ply + 1,
                remaining - 1,
                trial.alpha,
                trial.beta,
                None,
            );
            proof {
                lemma_fought(
                    heard,
                    self.heard@,
                    task,
                    node,
                    (begin, start.progress()),
                    (mind, before),
                    (self.mind(), score as int),
                );
            }
            if self.aborted {
                return trial.best;
            }
            trial = fought(trial, maximizing, score, Ghost(node));
        }
        proof {
            lemma_fought_out(
                self.heard@,
                task,
                node,
                (begin, start.progress()),
                (self.mind(), trial.progress()),
            );
        }
        trial.best
    }
}

/// After a move has come back with a score.
fn weighed(place: Place, trial: Trial, m: Move, score: i32, Ghost(node): Ghost<Node>) -> (next:
    Trial)
    requires
        place.is_of(node),
        trial.tried < place.considered,
        trial.within(place.ply as int),
        score::within(score as int, place.ply as int),
    ensures
        next.progress() == model::weighed(node, trial.progress(), m, score as int),
        next.within(place.ply as int),
{
    let mut next = trial;
    next.tried = trial.tried + 1;
    next.floor = trial.floor.min(score);
    let improved: bool = if place.maximizing {
        score > trial.best
    } else {
        score < trial.best
    };
    if improved {
        next.best = score;
        next.best_move = Some(m);
    }
    if place.maximizing {
        next.alpha = trial.alpha.max(next.best);
    } else {
        next.beta = trial.beta.min(next.best);
    }
    // Nothing beats being mated right now. At the opponent's own nodes this does
    // not apply: a mate they merely *could* play settles nothing.
    next.done = next.alpha >= next.beta || (place.maximizing && !place.hopeful && next.best >= MATE
        - (place.ply as i32 + 1));
    next
}

/// Whether the moves of a node come to the same from one state as from another,
/// whatever is still to be heard.
spec fn sweep_alike(
    heard: Seq<Answer>,
    task: Task,
    node: Node,
    a: (Mind, Progress),
    b: (Mind, Progress),
) -> bool {
    forall|answers: Answers| #[trigger]
        model::agrees(heard, answers) ==> model::sweep(task, answers, a.0, node, a.1)
            == model::sweep(task, answers, b.0, node, b.1)
}

/// Whether the moves of a node come to an end from a state.
spec fn sweep_ends(
    heard: Seq<Answer>,
    task: Task,
    node: Node,
    a: (Mind, Progress),
    end: (Mind, Progress),
) -> bool {
    forall|answers: Answers| #[trigger]
        model::agrees(heard, answers) ==> model::sweep(task, answers, a.0, node, a.1) == end
}

/// A move that was tried ends the sweep where the search is broken off, and else
/// takes it a step further.
proof fn lemma_tried(
    heard: Seq<Answer>,
    now: Seq<Answer>,
    task: Task,
    node: Node,
    a: (Mind, Progress),
    b: (Mind, Progress),
    came: (Mind, int),
)
    requires
        sweep_alike(heard, task, node, a, b),
        engine::extends(now, heard),
        !b.1.done && b.1.tried < node.considered,
        forall|answers: Answers| #[trigger]
            model::agrees(now, answers) ==> model::attempt(
                task,
                answers,
                b.0,
                node.position,
                ordering::nth_pick(node.moves, node.keys, b.1.tried),
                node.depth,
                node.ply,
                b.1.alpha,
                b.1.beta,
            ) == came,
    ensures
        came.0.aborted ==> sweep_ends(now, task, node, a, (came.0, b.1)),
        !came.0.aborted ==> {
            let m = ordering::nth_pick(node.moves, node.keys, b.1.tried);
            sweep_alike(
                now,
                task,
                node,
                a,
                (
                    model::noted(node, b.1, came.0, m, came.1),
                    model::weighed(node, b.1, m, came.1),
                ),
            )
        },
{
    reveal(model::attempt);
    reveal(model::sweep);
    assert forall|answers: Answers| #[trigger] model::agrees(now, answers) implies model::agrees(
        heard,
        answers,
    ) by {
        engine::lemma_agrees(now, heard, answers);
    }
}

/// With no move left to try the sweep is over.
proof fn lemma_swept(
    heard: Seq<Answer>,
    task: Task,
    node: Node,
    a: (Mind, Progress),
    b: (Mind, Progress),
)
    requires
        sweep_alike(heard, task, node, a, b),
        b.1.done || b.1.tried >= node.considered,
    ensures
        sweep_ends(heard, task, node, a, b),
{
    reveal(model::sweep);
}

/// A number between 1 and a larger one.
fn clamp(n: usize, most: usize) -> (clamped: usize)
    ensures
        clamped == model::clamped(n as int, most as nat),
{
    if n < 1 {
        1
    } else if n > most {
        most
    } else {
        n
    }
}

/// A legal move and a line that can be played after it are a line.
pub(crate) proof fn lemma_longer_line(position: Position, m: Move, line: Seq<Move>)
    requires
        rules::legal(position).contains(m),
        m.on_board(),
        engine::playable_line(rules::after(position, m), line),
    ensures
        engine::playable_line(position, seq![m] + line),
{
    assert((seq![m] + line).drop_first() =~= line);
    assert((seq![m] + line)[0] == m);
}

impl Engine {
    /// The core recursion. Returns the value of `position` in internal
    /// orientation: higher is better for whatever the engine is trying to do.
    ///
    /// It puts the path back as it was, leaves the lines above this ply alone,
    /// expects a line that can be played and is no longer than the depth, and does
    /// not go beyond the node limit once it may stop.
    pub(crate) fn visit(
        &mut self,
        seat: &Seat,
        depth: i32,
        ply: usize,
        alpha: i32,
        beta: i32,
    ) -> (value: i32)
        requires
            old(self).sane(),
            ply + 2 <= MAX_PLY,
            old(self).path@.len() > 0,
            old(self).path@.last() == game::hash(seat.here()),
        ensures
            final(self).steady(*old(self)),
            forall|i: int|
                0 <= i < ply ==> #[trigger] final(self).mind().pv[i] == old(self).mind().pv[i],
            engine::playable_line(seat.here(), final(self).mind().pv[ply as int]),
            final(self).mind().pv[ply as int].len() <= chess::larger(depth as int, 0),
            score::within(value as int, ply as int),
            forall|answers: Answers| #[trigger]
                model::agrees(final(self).heard@, answers) ==> model::visit(
                    old(self).task(),
                    answers,
                    old(self).mind(),
                    seat.here(),
                    depth,
                    ply as nat,
                    alpha as int,
                    beta as int,
                ) == (final(self).mind(), value as int),
        decreases MAX_PLY - ply, 5nat,
    {
        reveal(model::visit);
        reveal(model::sweep);
        reveal(model::closing);
        let ghost begin = self.mind();
        let position = seat.position();
        self.pv[ply].clear();
        proof {
            assert(engine::lines(self.pv@) =~= begin.pv.update(ply as int, seq![]));
            assert(self.mind() == begin.without_line(ply as nat));
        }
        if self.enter(ply) {
            return 0;
        }
        let ghost heard = self.heard@;
        let ghost counted = self.mind();
        if self.is_drawn(position) {
            return draw_score(self.factor, &self.options);
        }
        let key: u64 = self.path[self.path.len() - 1];
        let mut moves = generate(seat);
        if moves.len() == 0 {
            return if position.is_check() {
                checkmate_score(self.factor, self.victim, position.turn, ply)
            } else {
                draw_score(self.factor, &self.options)
            };
        }
        if depth <= 0 || ply + 2 >= MAX_PLY {
            let value: i32 = self.quiescence(
                seat,
                ply,
                QUIESCENCE_PLIES,
                alpha,
                beta,
                Some(moves),
            );
            proof {
                assert forall|answers: Answers| #[trigger]
                    model::agrees(self.heard@, answers) implies model::agrees(heard, answers) by {
                    engine::lemma_agrees(self.heard@, heard, answers);
                }
            }
            return value;
        }
        let maximizing: bool = self.maximizes(position.turn);
        let mut tt_move: Option<Move> = None;
        if let Some(entry) = self.table.probe(key) {
            tt_move = entry.best;
            if entry.depth >= depth as i16 {
                let value: i32 = from_table(entry.score, ply);
                let usable: bool = match entry.bound {
                    Bound::Exact => true,
                    Bound::Lower => value >= beta,
                    Bound::Upper => value <= alpha,
                };
                if usable {
                    return value;
                }
            }
        }
        let mut keys = self.order_keys(position, &moves, ply, tt_move, maximizing);
        // Under the optimistic model the opponent is playing to win, and the
        // moves that hurt most are already at the front; looking at all of them
        // buys very little and costs a great deal.
        let hopeful: bool = maximizing && position.turn != self.victim;
        let considered: usize = if hopeful {
            clamp(self.options.opponent_moves, moves.len())
        } else if depth <= NARROW_BELOW_DEPTH {
            clamp(self.options.own_moves, moves.len())
        } else {
            moves.len()
        };
        let place = Place { depth, ply, maximizing, hopeful, considered };
        let ghost node = model::node_at(self.task(), counted, seat.here(), depth, ply as nat);
        let start = Trial {
            tried: 0,
            alpha,
            beta,
            best: if maximizing {
                -INFINITY
            } else {
                INFINITY
            },
            best_move: None,
            floor: INFINITY,
            done: false,
        };
        let trial = self.sweep(seat, place, &mut moves, &mut keys, start, Ghost(node));
        let ghost swept = self.heard@;
        let value: i32 = self.closing(
            seat,
            place,
            &moves,
            &keys,
            key,
            trial,
            alpha,
            beta,
            Ghost(node),
        );
        proof {
            assert forall|answers: Answers| #[trigger]
                model::agrees(self.heard@, answers) implies model::agrees(heard, answers)
                && model::agrees(swept, answers) by {
                engine::lemma_agrees(self.heard@, swept, answers);
                engine::lemma_agrees(swept, heard, answers);
            }
        }
        value
    }

    /// Plays a move, visits what it leads to, and takes the move back.
    pub(crate) fn attempt(
        &mut self,
        seat: &Seat,
        m: Move,
        depth: i32,
        ply: usize,
        alpha: i32,
        beta: i32,
    ) -> (value: i32)
        requires
            old(self).sane(),
            ply + 2 < MAX_PLY,
            depth > i32::MIN,
            rules::legal(seat.here()).contains(m),
            m.on_board(),
        ensures
            final(self).steady(*old(self)),
            forall|i: int|
                0 <= i <= ply ==> #[trigger] final(self).mind().pv[i] == old(self).mind().pv[i],
            engine::playable_line(rules::after(seat.here(), m), final(self).mind().pv[ply + 1]),
            final(self).mind().pv[ply + 1].len() <= chess::larger(depth - 1, 0),
            score::within(value as int, ply + 1),
            forall|answers: Answers| #[trigger]
                model::agrees(final(self).heard@, answers) ==> model::attempt(
                    old(self).task(),
                    answers,
                    old(self).mind(),
                    seat.here(),
                    m,
                    depth,
                    ply as nat,
                    alpha as int,
                    beta as int,
                ) == (final(self).mind(), value as int),
        decreases MAX_PLY - ply, 2nat,
    {
        reveal(model::visit);
        reveal(model::attempt);
        let child = play(seat, m);
        let key: u64 = zobrist_hash(&child);
        self.path.push(key);
        proof {
            assert(self.mind() == old(self).mind().stepping(key));
        }
        let value: i32 = self.visit(&child, depth - 1, ply + 1, alpha, beta);
        let ghost after = self.mind();
        self.path.pop();
        proof {
            assert(self.path@ =~= old(self).path@);
            assert(self.mind() == after.back());
        }
        value
    }

    /// Tries the moves of a node, one after the other, until nothing is gained
    /// by going on.
    fn sweep(
        &mut self,
        seat: &Seat,
        place: Place,
        moves: &mut Vec<Move>,
        keys: &mut Vec<i32>,
        start: Trial,
        Ghost(node): Ghost<Node>,
    ) -> (trial: Trial)
        requires
            old(self).sane(),
            place.is_of(node),
            node.position == seat.here(),
            old(moves)@ == node.moves,
            old(keys)@ == node.keys,
            start.tried == 0,
            start.within(place.ply as int),
            engine::playable_line(seat.here(), old(self).mind().pv[place.ply as int]),
            old(self).mind().pv[place.ply as int].len() <= place.depth,
        ensures
            final(self).steady(*old(self)),
            forall|i: int|
                0 <= i < place.ply ==> #[trigger] final(self).mind().pv[i]
                    == old(self).mind().pv[i],
            engine::playable_line(seat.here(), final(self).mind().pv[place.ply as int]),
            final(self).mind().pv[place.ply as int].len() <= place.depth,
            trial.within(place.ply as int),
            trial.tried <= place.considered,
            !final(self).aborted ==> (final(moves)@, final(keys)@) == ordering::arranged(
                node.moves,
                node.keys,
                trial.tried as nat,
            ),
            forall|answers: Answers| #[trigger]
                model::agrees(final(self).heard@, answers) ==> model::sweep(
                    old(self).task(),
                    answers,
                    old(self).mind(),
                    node,
                    start.progress(),
                ) == (final(self).mind(), trial.progress()),
        decreases MAX_PLY - place.ply, 3nat,
    {
        let ghost task = self.task();
        let ghost begin = self.mind();
        let mut trial = start;
        while !trial.done && trial.tried < place.considered
            invariant
                self.steady(*old(self)),
                task == old(self).task(),
                begin == old(self).mind(),
                place.is_of(node),
                node.position == seat.here(),
                moves.len() == node.moves.len(),
                keys.len() == node.moves.len(),
                (moves@, keys@) == ordering::arranged(node.moves, node.keys, trial.tried as nat),
                trial.tried <= place.considered,
                trial.within(place.ply as int),
                forall|i: int|
                    0 <= i < place.ply ==> #[trigger] self.mind().pv[i] == begin.pv[i],
                engine::playable_line(seat.here(), self.mind().pv[place.ply as int]),
                self.mind().pv[place.ply as int].len() <= place.depth,
                sweep_alike(
                    self.heard@,
                    task,
                    node,
                    (begin, start.progress()),
                    (self.mind(), trial.progress()),
                ),
            decreases place.considered - trial.tried,
        {
            let ghost before = trial.progress();
            let ghost mind = self.mind();
            let ghost heard = self.heard@;
            select(moves, keys, trial.tried);
            let m = moves[trial.tried];
            proof {
                ordering::lemma_arranged(node.moves, node.keys, (trial.tried + 1) as nat);
                assert(node.moves.contains(m));
                assert(m == ordering::nth_pick(node.moves, node.keys, before.tried));
            }
            let score: i32 = self.attempt(
                seat,
                m,
                place.depth,
                place.ply,
                trial.alpha,
                trial.beta,
            );
            proof {
                lemma_tried(
                    heard,
                    self.heard@,
                    task,
                    node,
                    (begin, start.progress()),
                    (mind, before),
                    (self.mind(), score as int),
                );
            }
            if self.aborted {
                return trial;
            }
            let ghost after = self.mind();
            let ghost told = self.heard@;
            let next = weighed(place, trial, m, score, Ghost(node));
            if if place.maximizing {
                score > trial.best
            } else {
                score < trial.best
            } {
                self.update_pv(place.ply, m);
                proof {
                    lemma_longer_line(seat.here(), m, after.pv[place.ply + 1]);
                }
            }
            if next.alpha >= next.beta && m.capture().is_none() && m.promotion().is_none() {
                self.remember_killer(place.ply, m);
            }
            trial = next;
            proof {
                assert(self.mind() == model::noted(node, before, after, m, score as int));
                assert(self.heard@ =~= told);
            }
        }
        proof {
            lemma_swept(
                self.heard@,
                task,
                node,
                (begin, start.progress()),
                (self.mind(), trial.progress()),
            );
        }
        trial
    }

    /// Values a node whose moves have been tried, and remembers the result.
    fn closing(
        &mut self,
        seat: &Seat,
        place: Place,
        moves: &Vec<Move>,
        keys: &Vec<i32>,
        key: u64,
        trial: Trial,
        alpha: i32,
        beta: i32,
        Ghost(node): Ghost<Node>,
    ) -> (value: i32)
        requires
            old(self).sane(),
            place.is_of(node),
            node.position == seat.here(),
            key == game::hash(seat.here()),
            !old(self).aborted ==> (moves@, keys@) == ordering::arranged(
                node.moves,
                node.keys,
                trial.tried as nat,
            ),
            trial.tried <= place.considered,
            trial.within(place.ply as int),
            engine::playable_line(seat.here(), old(self).mind().pv[place.ply as int]),
            old(self).mind().pv[place.ply as int].len() <= place.depth,
        ensures
            final(self).steady(*old(self)),
            forall|i: int|
                0 <= i < place.ply ==> #[trigger] final(self).mind().pv[i]
                    == old(self).mind().pv[i],
            engine::playable_line(seat.here(), final(self).mind().pv[place.ply as int]),
            final(self).mind().pv[place.ply as int].len() <= place.depth,
            score::within(value as int, place.ply as int),
            forall|answers: Answers| #[trigger]
                model::agrees(final(self).heard@, answers) ==> model::closing(
                    old(self).task(),
                    answers,
                    old(self).mind(),
                    node,
                    trial.progress(),
                    alpha as int,
                    beta as int,
                ) == (final(self).mind(), value as int),
        decreases MAX_PLY - place.ply, 3nat,
    {
        reveal(model::attempt);
        reveal(model::closing);
        if self.aborted {
            return trial.best;
        }
        let mut value: i32 = trial.best;
        if place.hopeful {
            // Everything searched so far was chosen for being the most punishing
            // reply available. That says what happens if the opponent takes the
            // chance, but nothing about what happens if they do not, and an
            // engine that banks on being punished stops trying the moment any
            // punishment becomes available. So look at their most reluctant
            // reply too, and value the position from there.
            let mut floor: i32 = trial.floor;
            proof {
                ordering::lemma_arranged(node.moves, node.keys, trial.tried as nat);
            }
            if place.considered < moves.len() {
                let pick: usize = least(keys, place.considered);
                let m = moves[pick];
                proof {
                    assert(node.moves.contains(m));
                    assert(m == model::reluctant(node, trial.tried as nat));
                }
                let score: i32 = self.attempt(
                    seat,
                    m,
                    place.depth,
                    place.ply,
                    trial.alpha,
                    trial.beta,
                );
                if self.aborted {
                    return trial.best;
                }
                floor = floor.min(score);
            }
            value = discount_a_declinable_chance(trial.best, floor, self.options.opportunity_bonus);
        }
        let bound = if value <= alpha {
            Bound::Upper
        } else if value >= beta {
            Bound::Lower
        } else {
            Bound::Exact
        };
        self.table.store(
            key,
            trial.best_move,
            to_table(value, place.ply),
            place.depth as i16,
            bound,
        );
        value
    }
}

} // verus!
