//! What the search computes, as mathematics.
//!
//! A search is a function of its task, of what it has learned so far, and of the
//! answers it gets when it asks the world outside whether to stop. The engine
//! keeps what it was told; the functions here take the answers as a function
//! from the number of a question to the answer.

use vstd::prelude::*;

use crate::chess;
use crate::chess::{Color, Move, Position, Role};
use crate::eval;
use crate::game;
use crate::rules;
use crate::search::options::{OpponentModel, Options};
use crate::search::ordering;
use crate::search::ordering::RootMove;
use crate::search::score;
use crate::search::score::{Score, INFINITY, MATE, MATE_IN_MAX_PLY, MAX_PLY};
use crate::search::table;
use crate::search::table::{Bound, Entry};

verus! {

/// How far the quiescence search may run past the nominal depth.
///
/// Under [`OpponentModel::Optimistic`] there are no beta cutoffs to contain it,
/// so this is the only thing standing between the engine and a capture-rich
/// position that takes all afternoon.
pub const QUIESCENCE_PLIES: u32 = 5;

/// Remaining depth at or below which the engine looks only at its most
/// promising moves rather than all of them. Full width near the root, where it
/// matters; narrow near the leaves, where it does not.
pub const NARROW_BELOW_DEPTH: i32 = 4;

/// How much a single exchange is assumed to be able to swing the score, beyond
/// the material actually on the two squares. Anything that cannot plausibly
/// beat what has already been found is skipped.
pub const DELTA_MARGIN: i32 = 200;

/// After how many nodes the search asks whether to stop.
pub const NODES_BETWEEN_QUESTIONS: u64 = 2048;

/// What a search is asked to do.
pub ghost struct Task {
    pub options: Options,
    pub victim: Color,
    pub factor: int,
    pub node_limit: Option<u64>,
    /// How long it may take, in nanoseconds.
    pub budget: Option<nat>,
}

/// What a search has learned so far.
pub ghost struct Mind {
    pub entries: Seq<Entry>,
    pub killers: Seq<(Option<Move>, Option<Move>)>,
    pub pv: Seq<Seq<Move>>,
    pub path: Seq<u64>,
    pub nodes: u64,
    pub seldepth: int,
    pub can_abort: bool,
    pub aborted: bool,
    /// How many questions the world outside has answered.
    pub asked: nat,
}

/// A position whose moves are being weighed.
pub ghost struct Node {
    pub position: Position,
    pub depth: i32,
    pub ply: nat,
    pub moves: Seq<Move>,
    pub keys: Seq<i32>,
    pub maximizing: bool,
    /// Whether it is the opponent's turn and they are assumed to want what the
    /// engine wants.
    pub hopeful: bool,
    /// How many moves are considered.
    pub considered: nat,
}

/// How far the weighing of a position's moves has come.
pub ghost struct Progress {
    pub tried: nat,
    pub alpha: int,
    pub beta: int,
    pub best: int,
    pub best_move: Option<Move>,
    /// The worst that a reply of the opponent does to the engine's plans.
    pub floor: int,
    pub done: bool,
}

/// A position whose captures and promotions are being played out.
pub ghost struct Skirmish {
    pub position: Position,
    pub ply: nat,
    pub remaining: nat,
    pub moves: Seq<Move>,
    pub keys: Seq<i32>,
    pub maximizing: bool,
    pub in_check: bool,
    /// What the position is worth without another exchange.
    pub stand_pat: int,
}

/// What the world outside answers when it is asked whether to stop.
pub ghost enum Answer {
    /// Whether the flag that says stop is up.
    Flag(bool),
    /// How long the search has taken so far, in nanoseconds.
    Clock(nat),
}

/// The answers of the world outside: one for each question.
pub type Answers = spec_fn(int) -> Answer;

/// Whether the flag is up.
pub open spec fn raised(answer: Answer) -> bool {
    answer == Answer::Flag(true)
}

/// Whether the time is up.
pub open spec fn late(answer: Answer, budget: nat) -> bool {
    answer matches Answer::Clock(time) && time >= budget
}

/// Whether what was heard is what these answers say.
pub open spec fn agrees(heard: Seq<Answer>, answers: Answers) -> bool {
    forall|i: int| 0 <= i < heard.len() ==> heard[i] == #[trigger] answers(i)
}

impl Mind {
    /// With nothing left of the line at a ply.
    pub open spec fn without_line(self, ply: nat) -> Mind {
        Mind { pv: self.pv.update(ply as int, seq![]), ..self }
    }

    /// With another node visited at a ply.
    pub open spec fn counting(self, ply: nat) -> Mind {
        Mind {
            nodes: if self.nodes < u64::MAX {
                (self.nodes + 1) as u64
            } else {
                self.nodes
            },
            seldepth: chess::larger(self.seldepth, ply as int),
            ..self
        }
    }

    /// With a position added to the path.
    pub open spec fn stepping(self, key: u64) -> Mind {
        Mind { path: self.path.push(key), ..self }
    }

    /// With the last position of the path taken back.
    pub open spec fn back(self) -> Mind {
        Mind { path: self.path.drop_last(), ..self }
    }

    /// With a move, and what is expected to follow it, as the line at a ply.
    pub open spec fn expecting(self, ply: nat, m: Move) -> Mind {
        Mind { pv: self.pv.update(ply as int, seq![m] + self.pv[ply as int + 1]), ..self }
    }

    /// With a move among the two that last refuted something at a ply.
    pub open spec fn crediting(self, ply: nat, m: Move) -> Mind {
        let killers = self.killers[ply as int];
        if killers.0 == Some(m) {
            self
        } else {
            Mind { killers: self.killers.update(ply as int, (Some(m), killers.0)), ..self }
        }
    }
}

/// Whether to stop: for good once it was decided, not before the first root move
/// is done, at the node limit, and whenever the flag or the clock says so when
/// they are asked.
pub open spec fn consulted(task: Task, answers: Answers, mind: Mind) -> Mind {
    if mind.aborted || !mind.can_abort {
        mind
    } else if task.node_limit is Some && mind.nodes >= task.node_limit->0 {
        Mind { aborted: true, ..mind }
    } else if mind.nodes % NODES_BETWEEN_QUESTIONS != 0 {
        mind
    } else if raised(answers(mind.asked as int)) {
        Mind { aborted: true, asked: mind.asked + 1, ..mind }
    } else {
        match task.budget {
            None => Mind { asked: mind.asked + 1, ..mind },
            Some(budget) => Mind {
                aborted: late(answers(mind.asked as int + 1), budget),
                asked: mind.asked + 2,
                ..mind
            },
        }
    }
}

/// Whether the player to move is trying to make the score go up.
pub open spec fn maximizing(task: Task, turn: Color) -> bool {
    turn == task.victim || task.options.model == OpponentModel::Optimistic
}

/// Whether the game is over as a draw, given the path that led to a position.
pub open spec fn drawn(position: Position, path: Seq<u64>) -> bool {
    position.halfmoves >= 100 || position.is_dead() || game::recurs(
        path,
        position.halfmoves as int,
    )
}

/// A number between 1 and a larger one.
pub open spec fn clamped(n: int, most: nat) -> nat {
    if n < 1 {
        1
    } else if n > most {
        most
    } else {
        n as nat
    }
}

/// What the table says about a position, where it can be used as it is.
pub open spec fn recollection(
    mind: Mind,
    key: u64,
    depth: i32,
    ply: nat,
    alpha: int,
    beta: int,
) -> Option<int> {
    match table::known(mind.entries, key) {
        None => None,
        Some(entry) => {
            let value = score::recalled(entry.score as int, ply as int);
            if entry.depth >= depth as i16 && (match entry.bound {
                Bound::Exact => true,
                Bound::Lower => value >= beta,
                Bound::Upper => value <= alpha,
            }) {
                Some(value)
            } else {
                None
            }
        },
    }
}

/// The move that the table suggests.
pub open spec fn suggestion(mind: Mind, key: u64) -> Option<Move> {
    match table::known(mind.entries, key) {
        None => None,
        Some(entry) => entry.best,
    }
}

/// The keys by which the moves of a position are ordered.
pub open spec fn order_keys(
    position: Position,
    victim: Color,
    maximizing: bool,
    killers: (Option<Move>, Option<Move>),
    tt_move: Option<Move>,
) -> Seq<i32> {
    Seq::new(
        rules::legal(position).len(),
        |i: int|
            ordering::order_value(
                position,
                rules::legal(position)[i],
                victim,
                maximizing,
                killers,
                tt_move,
            ) as i32,
    )
}

/// A position as it is before its moves are weighed. Under the optimistic model
/// only the most punishing replies of the opponent are considered, and near the
/// leaves only the most promising moves of the engine.
pub open spec fn node_at(task: Task, mind: Mind, position: Position, depth: i32, ply: nat) -> Node {
    let moves = rules::legal(position);
    let maximizing = maximizing(task, position.turn);
    let hopeful = maximizing && position.turn != task.victim;
    Node {
        position,
        depth,
        ply,
        moves,
        keys: order_keys(
            position,
            task.victim,
            maximizing,
            mind.killers[ply as int],
            suggestion(mind, game::hash(position)),
        ),
        maximizing,
        hopeful,
        considered: if hopeful {
            clamped(task.options.opponent_moves as int, moves.len())
        } else if depth <= NARROW_BELOW_DEPTH {
            clamped(task.options.own_moves as int, moves.len())
        } else {
            moves.len()
        },
    }
}

/// Before the first move has been tried.
pub open spec fn at_first(maximizing: bool, alpha: int, beta: int) -> Progress {
    Progress {
        tried: 0,
        alpha,
        beta,
        best: if maximizing {
            -INFINITY as int
        } else {
            INFINITY as int
        },
        best_move: None,
        floor: INFINITY as int,
        done: false,
    }
}

/// Whether a score is better than the best so far.
pub open spec fn improves(node: Node, p: Progress, score: int) -> bool {
    if node.maximizing {
        score > p.best
    } else {
        score < p.best
    }
}

/// After a move has come back with a score. The rest need not be tried where the
/// score is beyond the window, or where the engine is mated right away: at the
/// opponent's nodes a mate that they merely could play settles nothing.
pub open spec fn weighed(node: Node, p: Progress, m: Move, score: int) -> Progress {
    let improved = improves(node, p, score);
    let best = if improved {
        score
    } else {
        p.best
    };
    let alpha = if node.maximizing {
        chess::larger(p.alpha, best)
    } else {
        p.alpha
    };
    let beta = if node.maximizing {
        p.beta
    } else {
        chess::smaller(p.beta, best)
    };
    Progress {
        tried: p.tried + 1,
        alpha,
        beta,
        best,
        best_move: if improved {
            Some(m)
        } else {
            p.best_move
        },
        floor: chess::smaller(p.floor, score),
        done: alpha >= beta || (node.maximizing && !node.hopeful && best >= MATE - (node.ply + 1)),
    }
}

/// What is learned from it: the expected line where the score is the best so far,
/// and a quiet move that was beyond the window.
pub open spec fn noted(node: Node, p: Progress, mind: Mind, m: Move, score: int) -> Mind {
    let next = weighed(node, p, m, score);
    let expecting = if improves(node, p, score) {
        mind.expecting(node.ply, m)
    } else {
        mind
    };
    if next.alpha >= next.beta && m.captured() is None && m.promoted() is None {
        expecting.crediting(node.ply, m)
    } else {
        expecting
    }
}

/// What the table is told about a position, and what the position is worth.
pub open spec fn settled(
    mind: Mind,
    node: Node,
    best: int,
    best_move: Option<Move>,
    alpha: int,
    beta: int,
) -> (Mind, int) {
    let entry = Entry {
        key: game::hash(node.position),
        best: best_move,
        score: score::kept(best, node.ply as int) as i32,
        depth: node.depth as i16,
        bound: if best <= alpha {
            Bound::Upper
        } else if best >= beta {
            Bound::Lower
        } else {
            Bound::Exact
        },
    };
    (Mind { entries: table::learned(mind.entries, entry), ..mind }, best)
}

/// The core recursion: what a position is worth, and what is learned from it.
/// The value is in internal orientation: higher is better for whatever the
/// engine is trying to do.
#[verifier::opaque]
pub open spec fn visit(
    task: Task,
    answers: Answers,
    mind: Mind,
    position: Position,
    depth: i32,
    ply: nat,
    alpha: int,
    beta: int,
) -> (Mind, int)
    decreases MAX_PLY - ply, 5nat, 0nat,
{
    let asked = consulted(task, answers, mind.without_line(ply));
    let counted = asked.counting(ply);
    if asked.aborted {
        (asked, 0)
    } else if drawn(position, counted.path) {
        (counted, score::draw_value(task.factor, task.options))
    } else if rules::legal(position).len() == 0 {
        (
            counted,
            if position.in_check() {
                score::mate_value(task.factor, task.victim, position.turn, ply as int)
            } else {
                score::draw_value(task.factor, task.options)
            },
        )
    } else if depth <= 0 || ply + 2 >= MAX_PLY {
        quiescence(
            task,
            answers,
            counted,
            position,
            ply,
            QUIESCENCE_PLIES as nat,
            alpha,
            beta,
        )
    } else {
        match recollection(counted, game::hash(position), depth, ply, alpha, beta) {
            Some(value) => (counted, value),
            None => {
                let node = node_at(task, counted, position, depth, ply);
                let (swept, p) = sweep(
                    task,
                    answers,
                    counted,
                    node,
                    at_first(node.maximizing, alpha, beta),
                );
                closing(task, answers, swept, node, p, alpha, beta)
            },
        }
    }
}

/// What a move leads to, with the path as it was before.
#[verifier::opaque]
pub open spec fn attempt(
    task: Task,
    answers: Answers,
    mind: Mind,
    position: Position,
    m: Move,
    depth: i32,
    ply: nat,
    alpha: int,
    beta: int,
) -> (Mind, int)
    decreases MAX_PLY - ply, 2nat, 0nat,
{
    if ply >= MAX_PLY {
        (mind, 0)
    } else {
        let child = rules::after(position, m);
        let (after, score) = visit(
            task,
            answers,
            mind.stepping(game::hash(child)),
            child,
            (depth - 1) as i32,
            ply + 1,
            alpha,
            beta,
        );
        (after.back(), score)
    }
}

/// The moves of a node, tried one after the other until nothing is gained by
/// going on.
#[verifier::opaque]
pub open spec fn sweep(
    task: Task,
    answers: Answers,
    mind: Mind,
    node: Node,
    p: Progress,
) -> (Mind, Progress)
    decreases MAX_PLY - node.ply, 3nat, node.considered - p.tried,
{
    if p.done || p.tried >= node.considered {
        (mind, p)
    } else {
        let m = ordering::nth_pick(node.moves, node.keys, p.tried);
        let (after, score) = attempt(
            task,
            answers,
            mind,
            node.position,
            m,
            node.depth,
            node.ply,
            p.alpha,
            p.beta,
        );
        if after.aborted {
            (after, p)
        } else {
            sweep(task, answers, noted(node, p, after, m, score), node, weighed(node, p, m, score))
        }
    }
}

/// What a node is worth once its moves have been tried. At the opponent's nodes
/// their most reluctant reply is looked at too, and the position is valued from
/// there: everything before was chosen for being the most punishing reply, which
/// says nothing about what happens if they do not take the chance.
#[verifier::opaque]
pub open spec fn closing(
    task: Task,
    answers: Answers,
    mind: Mind,
    node: Node,
    p: Progress,
    alpha: int,
    beta: int,
) -> (Mind, int)
    decreases MAX_PLY - node.ply, 3nat, 0nat,
{
    let bonus = task.options.opportunity_bonus as int;
    if mind.aborted {
        (mind, p.best)
    } else if !node.hopeful {
        settled(mind, node, p.best, p.best_move, alpha, beta)
    } else if node.considered >= node.moves.len() {
        settled(
            mind,
            node,
            score::declinable(p.best, p.floor, bonus),
            p.best_move,
            alpha,
            beta,
        )
    } else {
        let (after, score) = attempt(
            task,
            answers,
            mind,
            node.position,
            reluctant(node, p.tried),
            node.depth,
            node.ply,
            p.alpha,
            p.beta,
        );
        if after.aborted {
            (after, p.best)
        } else {
            settled(
                after,
                node,
                score::declinable(p.best, chess::smaller(p.floor, score), bonus),
                p.best_move,
                alpha,
                beta,
            )
        }
    }
}

/// The least attractive of the moves that were not considered.
pub open spec fn reluctant(node: Node, tried: nat) -> Move {
    let (moves, keys) = ordering::arranged(node.moves, node.keys, tried);
    moves[ordering::first_worst(keys, node.considered as int, keys.len() as int)]
}

/// Captures and promotions played out, so that the evaluation is not applied in
/// the middle of a trade. Out of check a player may also leave things as they
/// are.
#[verifier::opaque]
pub open spec fn quiescence(
    task: Task,
    answers: Answers,
    mind: Mind,
    position: Position,
    ply: nat,
    remaining: nat,
    alpha: int,
    beta: int,
) -> (Mind, int)
    decreases MAX_PLY - ply, 1nat, 0nat,
{
    let asked = consulted(task, answers, mind);
    let counted = asked.counting(ply);
    let leaf = score::leaf_value(task.factor, task.victim, task.options, position);
    let maximizing = maximizing(task, position.turn);
    if asked.aborted {
        (asked, 0)
    } else if position.halfmoves >= 100 || position.is_dead() {
        (counted, score::draw_value(task.factor, task.options))
    } else if remaining == 0 || ply + 2 >= MAX_PLY {
        (counted, leaf)
    } else if position.in_check() {
        if rules::legal(position).len() == 0 {
            (counted, score::mate_value(task.factor, task.victim, position.turn, ply as int))
        } else if remaining < QUIESCENCE_PLIES - 1 {
            (counted, leaf)
        } else {
            skirmishes(
                task,
                answers,
                counted,
                skirmish_at(task, position, ply, remaining, rules::legal(position), true, 0),
                at_first(maximizing, alpha, beta),
            )
        }
    } else if maximizing && leaf >= beta || !maximizing && leaf <= alpha {
        (counted, leaf)
    } else {
        skirmishes(
            task,
            answers,
            counted,
            skirmish_at(task, position, ply, remaining, ordering::loud(position), false, leaf),
            standing(maximizing, alpha, beta, leaf),
        )
    }
}

/// A position as it is before its exchanges are played out.
pub open spec fn skirmish_at(
    task: Task,
    position: Position,
    ply: nat,
    remaining: nat,
    moves: Seq<Move>,
    in_check: bool,
    stand_pat: int,
) -> Skirmish {
    let maximizing = maximizing(task, position.turn);
    Skirmish {
        position,
        ply,
        remaining,
        moves,
        keys: exchange_keys(position, moves, task.victim, maximizing),
        maximizing,
        in_check,
        stand_pat,
    }
}

/// The keys by which exchanges are ordered.
pub open spec fn exchange_keys(
    position: Position,
    moves: Seq<Move>,
    victim: Color,
    maximizing: bool,
) -> Seq<i32> {
    Seq::new(
        moves.len(),
        |i: int| ordering::exchange_value(position, moves[i], victim, maximizing) as i32,
    )
}

/// Before the first exchange, where a player may leave things as they are.
pub open spec fn standing(maximizing: bool, alpha: int, beta: int, leaf: int) -> Progress {
    Progress {
        best: leaf,
        alpha: if maximizing {
            chess::larger(alpha, leaf)
        } else {
            alpha
        },
        beta: if maximizing {
            beta
        } else {
            chess::smaller(beta, leaf)
        },
        ..at_first(maximizing, alpha, beta)
    }
}

/// Whether an exchange cannot reach what has already been found.
pub open spec fn hopeless(node: Skirmish, best: int, m: Move) -> bool {
    let taken = match m.captured() {
        Some(role) => role,
        None => Role::Pawn,
    };
    !node.in_check && node.maximizing && node.stand_pat + eval::worth(taken) + eval::worth(
        m.moved(),
    ) + DELTA_MARGIN <= best
}

/// After an exchange has come back with a score.
pub open spec fn fought(node: Skirmish, p: Progress, score: int) -> Progress {
    let best = if node.maximizing {
        chess::larger(p.best, score)
    } else {
        chess::smaller(p.best, score)
    };
    let alpha = if node.maximizing {
        chess::larger(p.alpha, best)
    } else {
        p.alpha
    };
    let beta = if node.maximizing {
        p.beta
    } else {
        chess::smaller(p.beta, best)
    };
    Progress { tried: p.tried + 1, alpha, beta, best, done: alpha >= beta, ..p }
}

/// The exchanges of a position, played out one after the other.
#[verifier::opaque]
pub open spec fn skirmishes(
    task: Task,
    answers: Answers,
    mind: Mind,
    node: Skirmish,
    p: Progress,
) -> (Mind, int)
    decreases MAX_PLY - node.ply, 0nat, node.moves.len() - p.tried,
{
    if p.done || p.tried >= node.moves.len() || node.ply >= MAX_PLY || node.remaining == 0 {
        (mind, p.best)
    } else {
        let m = ordering::nth_pick(node.moves, node.keys, p.tried);
        if hopeless(node, p.best, m) {
            skirmishes(task, answers, mind, node, Progress { tried: p.tried + 1, ..p })
        } else {
            let (after, score) = quiescence(
                task,
                answers,
                mind,
                rules::after(node.position, m),
                node.ply + 1,
                (node.remaining - 1) as nat,
                p.alpha,
                p.beta,
            );
            if after.aborted {
                (after, p.best)
            } else {
                skirmishes(task, answers, after, node, fought(node, p, score))
            }
        }
    }
}

/// How far one pass over the root moves has come.
pub ghost struct Round {
    pub roots: Seq<RootMove>,
    pub tried: nat,
    pub alpha: int,
    pub best: Option<Move>,
    pub line: Seq<Move>,
}

/// Where a search stands after so many passes.
pub ghost struct Standing {
    pub roots: Seq<RootMove>,
    pub best: Option<Move>,
    pub sabotage: int,
    pub depth: nat,
    pub line: Seq<Move>,
    pub finished: bool,
}

/// What is reported after a pass.
pub ghost struct Report {
    pub depth: nat,
    pub seldepth: int,
    pub score: Score,
    pub sabotage: int,
    pub nodes: u64,
    pub line: Seq<Move>,
}

/// The moves that are considered at the root: the legal moves, or those of them
/// that were asked for.
pub open spec fn candidates(position: Position, wanted: Seq<Move>) -> Seq<Move> {
    rules::legal(position).filter(|m: Move| wanted.len() == 0 || wanted.contains(m))
}

/// The candidates with the keys by which they are ordered at the root.
pub open spec fn keyed(position: Position, victim: Color, moves: Seq<Move>) -> Seq<RootMove> {
    Seq::new(
        moves.len(),
        |i: int|
            RootMove {
                m: moves[i],
                score: ordering::order_value(
                    position,
                    moves[i],
                    victim,
                    true,
                    (None, None),
                    None,
                ) as i32,
            },
    )
}

/// Root moves that no pass has scored yet.
pub open spec fn unscored(roots: Seq<RootMove>) -> Seq<RootMove> {
    Seq::new(roots.len(), |i: int| RootMove { m: roots[i].m, score: (-INFINITY) as i32 })
}

/// Where a search stands at first: the candidates in the order of sabotage, and
/// the first of them as the move to play.
pub open spec fn before_searching(position: Position, wanted: Seq<Move>) -> Standing {
    let moves = candidates(position, wanted);
    let roots = unscored(ordering::ranked(keyed(position, position.turn, moves), moves.len()));
    if moves.len() == 0 {
        Standing { roots, best: None, sabotage: 0, depth: 0, line: seq![], finished: true }
    } else {
        Standing {
            roots,
            best: Some(roots[0].m),
            sabotage: 0,
            depth: 0,
            line: seq![roots[0].m],
            finished: false,
        }
    }
}

/// What is left of what was learned when a new search begins: the table. The path
/// is that of the game.
pub open spec fn refreshed(mind: Mind, trail: Seq<u64>) -> Mind {
    Mind {
        entries: mind.entries,
        killers: Seq::new(mind.killers.len(), |i: int| (None, None)),
        pv: Seq::new(mind.pv.len(), |i: int| seq![]),
        path: trail,
        nodes: 0,
        seldepth: 0,
        can_abort: false,
        aborted: false,
        asked: 0,
    }
}

/// The depth of a pass as the recursion counts it.
pub open spec fn ply_depth(depth: nat) -> i32 {
    if depth > i32::MAX {
        i32::MAX
    } else {
        depth as i32
    }
}

/// One pass over the root moves. Once the first of them is done the search may
/// stop.
pub open spec fn pass(
    task: Task,
    answers: Answers,
    mind: Mind,
    position: Position,
    depth: nat,
    r: Round,
) -> (Mind, Round)
    decreases r.roots.len() - r.tried,
{
    if r.tried >= r.roots.len() {
        (mind, r)
    } else {
        let m = r.roots[r.tried as int].m;
        let (after, score) = attempt(
            task,
            answers,
            mind,
            position,
            m,
            ply_depth(depth),
            0,
            r.alpha,
            INFINITY as int,
        );
        if after.aborted {
            (after, r)
        } else {
            pass(
                task,
                answers,
                Mind { can_abort: true, ..after },
                position,
                depth,
                tallied(r, score, after.pv[1]),
            )
        }
    }
}

/// After a root move has come back with a score and an expected line.
pub open spec fn tallied(r: Round, score: int, reply: Seq<Move>) -> Round {
    let m = r.roots[r.tried as int].m;
    let better = r.tried == 0 || score > r.alpha;
    Round {
        roots: r.roots.update(r.tried as int, RootMove { m, score: score as i32 }),
        tried: r.tried + 1,
        alpha: if better {
            score
        } else {
            r.alpha
        },
        best: if better {
            Some(m)
        } else {
            r.best
        },
        line: if better {
            seq![m] + reply
        } else {
            r.line
        },
    }
}

/// Before a pass.
pub open spec fn unplayed(roots: Seq<RootMove>) -> Round {
    Round { roots, tried: 0, alpha: -INFINITY as int, best: None, line: seq![] }
}

/// Where a search stands after another pass, and the report on it. A pass that
/// was broken off counts for nothing; a forced result, or the clock, ends the
/// search.
pub open spec fn deepened(
    task: Task,
    answers: Answers,
    mind: Mind,
    position: Position,
    s: Standing,
) -> (Mind, Standing, Option<Report>) {
    let depth = s.depth + 1;
    let (after, r) = pass(
        task,
        answers,
        Mind { seldepth: 0, ..mind },
        position,
        depth,
        unplayed(s.roots),
    );
    if after.aborted {
        (after, Standing { roots: r.roots, finished: true, ..s }, None)
    } else {
        let sabotage = score::oriented(task.factor, r.alpha);
        let forced = r.alpha >= MATE_IN_MAX_PLY || r.alpha <= -MATE_IN_MAX_PLY;
        let asks = !forced && task.budget is Some;
        (
            Mind {
                asked: if asks {
                    after.asked + 1
                } else {
                    after.asked
                },
                ..after
            },
            Standing {
                roots: ordering::ranked(r.roots, r.roots.len()),
                best: r.best,
                sabotage,
                depth,
                line: r.line,
                finished: forced || (asks && late(answers(after.asked as int), task.budget->0)),
            },
            Some(
                Report {
                    depth,
                    seldepth: after.seldepth,
                    score: score::shown(task.factor, r.alpha),
                    sabotage,
                    nodes: after.nodes,
                    line: r.line,
                },
            ),
        )
    }
}

/// Where a search ends, and what it has reported: pass after pass, each a ply
/// deeper, until it is finished or as deep as it should go.
pub open spec fn searched(
    task: Task,
    answers: Answers,
    mind: Mind,
    position: Position,
    s: Standing,
    max_depth: nat,
    reports: Seq<Report>,
) -> (Mind, Standing, Seq<Report>)
    decreases max_depth - s.depth,
{
    if s.finished || s.depth >= max_depth {
        (mind, s, reports)
    } else {
        let (after, next, report) = deepened(task, answers, mind, position, s);
        if next.depth <= s.depth {
            (after, next, reports)
        } else {
            searched(
                task,
                answers,
                after,
                position,
                next,
                max_depth,
                match report {
                    Some(report) => reports.push(report),
                    None => reports,
                },
            )
        }
    }
}

} // verus!
