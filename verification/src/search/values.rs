//! What a search makes of a position, and of what it finds there.

use vstd::prelude::*;

use crate::chess;
use crate::chess::{Color, Move, Position};
use crate::eval;
use crate::game;
use crate::rules;
use crate::search::laws;
use crate::search::model;
use crate::search::model::{
    Answer, Answers, Mind, Node, Progress, Round, Skirmish, Standing, Task,
};
use crate::search::options::OpponentModel;
use crate::search::ordering;
use crate::search::ordering::RootMove;
use crate::search::score;
use crate::search::score::MAX_PLY;
use crate::search::table;
use crate::search::table::{Bound, Entry};

verus! {

/// Whether a position is drawn by the fifty-move rule or by dead material, or by a
/// repetition on the path that led to it.
pub open spec fn ruled_a_draw(position: Position, path: Seq<u64>) -> bool {
    position.halfmoves >= 100 || position.is_dead() || game::recurs(path, position.halfmoves as int)
}

/// Whether the player to move is checkmated.
pub open spec fn mated(position: Position) -> bool {
    position.in_check() && rules::legal(position).len() == 0
}

/// What a checkmate at a ply is worth to an engine that wants to lose: the most there
/// is where it is the one that is mated, and the least where it mates.
pub open spec fn price_of_mate(victim: Color, loser: Color, ply: int) -> int {
    if loser == victim {
        30_000 - ply
    } else {
        ply - 30_000
    }
}

/// In the quiescence search too a finished game is worth its result. A checkmate that
/// comes of a capture is worth what a checkmate is worth, to the engine that is mated
/// and to the engine that mates; and delivering one is never worth more than a draw.
pub proof fn law_a_capture_that_mates_is_a_mate(
    task: Task,
    answers: Answers,
    mind: Mind,
    position: Position,
    ply: nat,
    remaining: nat,
    alpha: int,
    beta: int,
)
    requires
        !model::consulted(task, answers, mind).aborted,
        remaining > 0,
        ply + 2 < MAX_PLY,
    ensures
        ({
            let value = model::quiescence(
                task,
                answers,
                mind,
                position,
                ply,
                remaining,
                alpha,
                beta,
            ).1;
            let dead = position.halfmoves >= 100 || position.is_dead();
            &&& !dead && mated(position) ==> value == score::mate_value(
                task.factor,
                task.victim,
                position.turn,
                ply as int,
            )
            &&& !dead && mated(position) && task.factor > 0 ==> value == price_of_mate(
                task.victim,
                position.turn,
                ply as int,
            )
            &&& !dead && mated(position) && task.factor < 0 ==> value == -price_of_mate(
                task.victim,
                position.turn,
                ply as int,
            )
            &&& !dead && mated(position) && position.turn != task.victim && task.factor > 0
                && task.options.draw_penalty < 29_000 ==> value < score::draw_value(
                task.factor,
                task.options,
            )
            &&& dead ==> value == score::draw_value(task.factor, task.options)
            &&& dead && task.factor > 0 ==> value == -task.options.draw_penalty
        }),
{
    reveal(model::skirmishes);
    reveal(model::quiescence);
}

/// A game that is over is worth its result wherever the search meets it: a draw costs
/// its penalty, being mated is worth the most and mating the least, and each the more
/// the sooner it comes.
pub proof fn law_the_end_of_a_game_is_seen(
    task: Task,
    answers: Answers,
    mind: Mind,
    position: Position,
    depth: i32,
    ply: nat,
    alpha: int,
    beta: int,
)
    requires
        !model::consulted(task, answers, mind.without_line(ply)).aborted,
        task.factor > 0,
    ensures
        ({
            let value = model::visit(task, answers, mind, position, depth, ply, alpha, beta).1;
            let drawn = ruled_a_draw(position, mind.path);
            let stuck = rules::legal(position).len() == 0;
            &&& drawn || (stuck && !position.in_check()) ==> value == -task.options.draw_penalty
            &&& !drawn && mated(position) ==> value == price_of_mate(
                task.victim,
                position.turn,
                ply as int,
            )
        }),
{
    reveal(model::visit);
}

/// A move back to a position that the game has seen is a draw, and worth no more: the
/// path remembers where the game has been.
pub proof fn law_a_move_that_repeats_is_a_draw(
    task: Task,
    answers: Answers,
    mind: Mind,
    position: Position,
    m: Move,
    depth: i32,
    ply: nat,
    alpha: int,
    beta: int,
    i: int,
)
    requires
        ply < MAX_PLY,
        task.factor > 0,
        0 <= i < mind.path.len() - 1,
        (mind.path.len() - i) % 2 == 0,
        mind.path[i] == game::hash(rules::after(position, m)),
        mind.path.len() - i <= rules::after(position, m).halfmoves,
        !mind.can_abort,
        !mind.aborted,
    ensures
        model::attempt(task, answers, mind, position, m, depth, ply, alpha, beta).1
            == -task.options.draw_penalty,
{
    reveal(model::visit);
    reveal(model::attempt);
    let child = rules::after(position, m);
    let stepping = mind.stepping(game::hash(child));
    let path = stepping.path;
    assert(path[i] == path[path.len() - 1]);
    assert(game::stood(path, child.halfmoves as int, path.len() - 1 - i));
    law_the_end_of_a_game_is_seen(
        task,
        answers,
        stepping,
        child,
        (depth - 1) as i32,
        ply + 1,
        alpha,
        beta,
    );
}

/// Delivering mate is the worst that a move can do, and walking into one the best:
/// the position after the move is what counts, one ply further on.
pub proof fn law_a_move_that_ends_the_game(
    task: Task,
    answers: Answers,
    mind: Mind,
    position: Position,
    m: Move,
    depth: i32,
    ply: nat,
    alpha: int,
    beta: int,
)
    requires
        ply < MAX_PLY,
        task.factor > 0,
        !mind.can_abort,
        !mind.aborted,
        mated(rules::after(position, m)),
        !ruled_a_draw(
            rules::after(position, m),
            mind.path.push(game::hash(rules::after(position, m))),
        ),
    ensures
        model::attempt(task, answers, mind, position, m, depth, ply, alpha, beta).1
            == price_of_mate(task.victim, rules::after(position, m).turn, ply as int + 1),
        model::attempt(task, answers, mind, position, m, depth, ply, alpha, beta).0.path
            == mind.path,
{
    reveal(model::visit);
    reveal(model::attempt);
    let child = rules::after(position, m);
    let stepping = mind.stepping(game::hash(child));
    law_the_end_of_a_game_is_seen(
        task,
        answers,
        stepping,
        child,
        (depth - 1) as i32,
        ply + 1,
        alpha,
        beta,
    );
    laws::law_a_visit_leaves_things_in_order(
        task,
        answers,
        stepping,
        child,
        (depth - 1) as i32,
        ply + 1,
        alpha,
        beta,
    );
    assert(stepping.path.drop_last() =~= mind.path);
}

/// Whether a move takes something or promotes.
pub open spec fn is_loud(m: Move) -> bool {
    m.captured() is Some || m.promoted() is Some
}

/// A quiet position is worth what the evaluation says of it, and so is any where the
/// quiescence search has run its course.
pub proof fn law_a_quiet_position_is_worth_its_evaluation(
    task: Task,
    answers: Answers,
    mind: Mind,
    position: Position,
    ply: nat,
    remaining: nat,
    alpha: int,
    beta: int,
)
    requires
        !model::consulted(task, answers, mind).aborted,
        position.halfmoves < 100,
        !position.is_dead(),
        remaining == 0 || ply >= MAX_PLY - 2 || (!position.in_check() && forall|m: Move| #[trigger]
            rules::legal(position).contains(m) ==> !is_loud(m)),
    ensures
        model::quiescence(task, answers, mind, position, ply, remaining, alpha, beta).1
            == score::leaf_value(task.factor, task.victim, task.options, position),
{
    reveal(model::quiescence);
    reveal(model::skirmishes);
    if remaining > 0 && ply < MAX_PLY - 2 {
        ordering::law_the_loud_moves_take_or_promote(position);
        assert(ordering::loud(position).len() == 0) by {
            if ordering::loud(position).len() > 0 {
                let m = ordering::loud(position)[0];
                assert(ordering::loud(position).contains(m));
                assert(rules::legal(position).contains(m));
            }
        }
    }
}

/// With one exchange to consider and out of check, a position is worth the better of
/// leaving things as they are and making it, to whoever is to move.
pub proof fn law_an_exchange_can_be_made_or_left(
    task: Task,
    answers: Answers,
    mind: Mind,
    position: Position,
    ply: nat,
    remaining: nat,
    alpha: int,
    beta: int,
    m: Move,
)
    requires
        !model::consulted(task, answers, mind).aborted,
        position.halfmoves < 100,
        !position.is_dead(),
        !position.in_check(),
        remaining > 0,
        ply + 2 < MAX_PLY,
        ordering::loud(position) == seq![m],
    ensures
        ({
            let leaf = score::leaf_value(task.factor, task.victim, task.options, position);
            let up = model::maximizing(task, position.turn);
            let (after, made) = model::quiescence(
                task,
                answers,
                model::consulted(task, answers, mind).counting(ply),
                rules::after(position, m),
                ply + 1,
                (remaining - 1) as nat,
                if up {
                    chess::larger(alpha, leaf)
                } else {
                    alpha
                },
                if up {
                    beta
                } else {
                    chess::smaller(beta, leaf)
                },
            );
            let value = model::quiescence(
                task,
                answers,
                mind,
                position,
                ply,
                remaining,
                alpha,
                beta,
            ).1;
            !after.aborted ==> {
                &&& up && leaf < beta ==> value == if made > leaf {
                    made
                } else {
                    leaf
                }
                &&& !up && leaf > alpha ==> value == if made < leaf {
                    made
                } else {
                    leaf
                }
            }
        }),
{
    reveal(model::skirmishes);
    reveal(model::quiescence);
    let leaf = score::leaf_value(task.factor, task.victim, task.options, position);
    let up = model::maximizing(task, position.turn);
    let counted = model::consulted(task, answers, mind).counting(ply);
    let node = model::skirmish_at(
        task,
        position,
        ply,
        remaining,
        ordering::loud(position),
        false,
        leaf,
    );
    let p = model::standing(up, alpha, beta, leaf);
    lemma_one_exchange(task, answers, counted, node, p, m);
}

proof fn lemma_one_exchange(
    task: Task,
    answers: Answers,
    mind: Mind,
    node: Skirmish,
    p: Progress,
    m: Move,
)
    requires
        node.moves == seq![m],
        node.keys.len() == 1,
        p.tried == 0,
        !p.done,
        node.ply < MAX_PLY,
        node.remaining > 0,
        node.in_check || p.best == node.stand_pat,
    ensures
        ({
            let (after, made) = model::quiescence(
                task,
                answers,
                mind,
                rules::after(node.position, m),
                node.ply + 1,
                (node.remaining - 1) as nat,
                p.alpha,
                p.beta,
            );
            !after.aborted ==> model::skirmishes(task, answers, mind, node, p).1
                == if node.maximizing {
                chess::larger(p.best, made)
            } else {
                chess::smaller(p.best, made)
            }
        }),
{
    reveal(model::quiescence);
    reveal(model::skirmishes);
    ordering::lemma_arranged(node.moves, node.keys, 1);
    assert(node.moves.contains(ordering::nth_pick(node.moves, node.keys, 0)));
    assert(ordering::nth_pick(node.moves, node.keys, 0) == m);
    let (after, made) = model::quiescence(
        task,
        answers,
        mind,
        rules::after(node.position, m),
        node.ply + 1,
        (node.remaining - 1) as nat,
        p.alpha,
        p.beta,
    );
    let next = model::fought(node, p, made);
    assert(model::skirmishes(task, answers, after, node, next) == (after, next.best));
}

/// In check there is no leaving things as they are: with one way out, a position is
/// worth what that leads to.
pub proof fn law_a_check_has_to_be_met(
    task: Task,
    answers: Answers,
    mind: Mind,
    position: Position,
    ply: nat,
    remaining: nat,
    alpha: int,
    beta: int,
    m: Move,
)
    requires
        !model::consulted(task, answers, mind).aborted,
        position.halfmoves < 100,
        !position.is_dead(),
        position.in_check(),
        remaining >= 4,
        ply + 2 < MAX_PLY,
        rules::legal(position) == seq![m],
    ensures
        ({
            let (after, met) = model::quiescence(
                task,
                answers,
                model::consulted(task, answers, mind).counting(ply),
                rules::after(position, m),
                ply + 1,
                (remaining - 1) as nat,
                alpha,
                beta,
            );
            !after.aborted && -32_000 <= met <= 32_000 ==> model::quiescence(
                task,
                answers,
                mind,
                position,
                ply,
                remaining,
                alpha,
                beta,
            ).1 == met
        }),
{
    reveal(model::skirmishes);
    reveal(model::quiescence);
    let up = model::maximizing(task, position.turn);
    let counted = model::consulted(task, answers, mind).counting(ply);
    let node = model::skirmish_at(
        task,
        position,
        ply,
        remaining,
        rules::legal(position),
        true,
        0,
    );
    lemma_one_exchange(task, answers, counted, node, model::at_first(up, alpha, beta), m);
}

/// The most attractive exchange is there for the taking: out of check, with more to
/// be had from it than from leaving things as they are, a position is worth at least
/// what it leads to, and at most that to a player who wants less.
pub proof fn law_the_first_exchange_is_not_overlooked(
    task: Task,
    answers: Answers,
    mind: Mind,
    position: Position,
    ply: nat,
    remaining: nat,
    alpha: int,
    beta: int,
)
    requires
        !model::consulted(task, answers, mind).aborted,
        position.halfmoves < 100,
        !position.is_dead(),
        !position.in_check(),
        remaining > 0,
        ply + 2 < MAX_PLY,
        ordering::loud(position).len() > 0,
    ensures
        ({
            let leaf = score::leaf_value(task.factor, task.victim, task.options, position);
            let up = model::maximizing(task, position.turn);
            let loud = ordering::loud(position);
            let first = ordering::nth_pick(
                loud,
                model::exchange_keys(position, loud, task.victim, up),
                0,
            );
            let (after, made) = model::quiescence(
                task,
                answers,
                model::consulted(task, answers, mind).counting(ply),
                rules::after(position, first),
                ply + 1,
                (remaining - 1) as nat,
                if up {
                    chess::larger(alpha, leaf)
                } else {
                    alpha
                },
                if up {
                    beta
                } else {
                    chess::smaller(beta, leaf)
                },
            );
            let value = model::quiescence(
                task,
                answers,
                mind,
                position,
                ply,
                remaining,
                alpha,
                beta,
            ).1;
            !after.aborted ==> (up && leaf < beta ==> value >= made) && (!up && leaf > alpha
                ==> value <= made)
        }),
{
    reveal(model::quiescence);
    reveal(model::skirmishes);
    let leaf = score::leaf_value(task.factor, task.victim, task.options, position);
    let up = model::maximizing(task, position.turn);
    let loud = ordering::loud(position);
    let counted = model::consulted(task, answers, mind).counting(ply);
    let node = model::skirmish_at(task, position, ply, remaining, loud, false, leaf);
    let p = model::standing(up, alpha, beta, leaf);
    let first = ordering::nth_pick(node.moves, node.keys, 0);
    let (after, made) = model::quiescence(
        task,
        answers,
        counted,
        rules::after(position, first),
        ply + 1,
        (remaining - 1) as nat,
        p.alpha,
        p.beta,
    );
    laws::lemma_skirmishes_improve(task, answers, after, node, model::fought(node, p, made));
}

/// Where there is one legal move, a position is worth what that leads to, whoever is
/// to move and whatever the opponent is assumed to want: there is nothing to choose
/// and nothing to decline.
pub proof fn law_a_forced_move_is_worth_what_it_leads_to(
    task: Task,
    answers: Answers,
    mind: Mind,
    position: Position,
    depth: i32,
    ply: nat,
    alpha: int,
    beta: int,
    m: Move,
)
    requires
        !model::consulted(task, answers, mind.without_line(ply)).aborted,
        !ruled_a_draw(position, mind.path),
        rules::legal(position) == seq![m],
        depth > 0,
        ply + 2 < MAX_PLY,
        table::known(mind.entries, game::hash(position)) is None,
    ensures
        ({
            let counted = model::consulted(task, answers, mind.without_line(ply)).counting(ply);
            let child = rules::after(position, m);
            let (after, led) = model::visit(
                task,
                answers,
                counted.stepping(game::hash(child)),
                child,
                (depth - 1) as i32,
                ply + 1,
                alpha,
                beta,
            );
            !after.aborted && -32_000 < led < 32_000 ==> model::visit(
                task,
                answers,
                mind,
                position,
                depth,
                ply,
                alpha,
                beta,
            ).1 == led
        }),
{
    reveal(model::visit);
    reveal(model::attempt);
    reveal(model::closing);
    let counted = model::consulted(task, answers, mind.without_line(ply)).counting(ply);
    let node = model::node_at(task, counted, position, depth, ply);
    let p = model::at_first(node.maximizing, alpha, beta);
    ordering::lemma_arranged(node.moves, node.keys, 1);
    assert(node.moves.contains(ordering::nth_pick(node.moves, node.keys, 0)));
    assert(ordering::nth_pick(node.moves, node.keys, 0) == m);
    assert(node.considered == 1);
    let (after, led) = model::attempt(
        task,
        answers,
        counted,
        position,
        m,
        depth,
        ply,
        alpha,
        beta,
    );
    if !after.aborted {
        let next = model::weighed(node, p, m, led);
        lemma_sweep_of_one(task, answers, counted, node, p, m);
    }
}

proof fn lemma_sweep_of_one(
    task: Task,
    answers: Answers,
    mind: Mind,
    node: Node,
    p: Progress,
    m: Move,
)
    requires
        node.considered == 1,
        p.tried == 0,
        !p.done,
        ordering::nth_pick(node.moves, node.keys, 0) == m,
    ensures
        ({
            let (after, led) = model::attempt(
                task,
                answers,
                mind,
                node.position,
                m,
                node.depth,
                node.ply,
                p.alpha,
                p.beta,
            );
            !after.aborted ==> model::sweep(task, answers, mind, node, p) == (
                model::noted(node, p, after, m, led),
                model::weighed(node, p, m, led),
            )
        }),
{
    reveal(model::attempt);
    reveal(model::sweep);
    let (after, led) = model::attempt(
        task,
        answers,
        mind,
        node.position,
        m,
        node.depth,
        node.ply,
        p.alpha,
        p.beta,
    );
    let noted = model::noted(node, p, after, m, led);
    let next = model::weighed(node, p, m, led);
    assert(model::sweep(task, answers, noted, node, next) == (noted, next));
}

/// As the moves of a node are tried, the best only gets better to whoever is to move,
/// and the floor only lower.
proof fn lemma_sweep_improves(task: Task, answers: Answers, mind: Mind, node: Node, p: Progress)
    ensures
        node.maximizing ==> model::sweep(task, answers, mind, node, p).1.best >= p.best,
        !node.maximizing ==> model::sweep(task, answers, mind, node, p).1.best <= p.best,
        model::sweep(task, answers, mind, node, p).1.floor <= p.floor,
    decreases node.considered - p.tried,
{
    reveal(model::attempt);
    reveal(model::sweep);
    if !p.done && p.tried < node.considered {
        let m = ordering::nth_pick(node.moves, node.keys, p.tried);
        let (after, score) = model::attempt(
            task,
            answers,
            mind,
            node.position,
            m,
            node.depth,
            node.ply,
            p.alpha,
            p.beta,
        );
        if !after.aborted {
            lemma_sweep_improves(
                task,
                answers,
                model::noted(node, p, after, m, score),
                node,
                model::weighed(node, p, m, score),
            );
        }
    }
}

/// The first move that is looked at in a position, as the search orders them.
pub open spec fn first_look(task: Task, mind: Mind, position: Position, depth: i32, ply: nat) -> Move {
    let node = model::node_at(task, mind, position, depth, ply);
    ordering::nth_pick(node.moves, node.keys, 0)
}

/// The side that is trying to lose never settles for less than its first move brings,
/// and an opponent who is assumed to want the opposite never allows more than theirs.
pub proof fn law_a_player_does_no_worse_than_the_first_move(
    task: Task,
    answers: Answers,
    mind: Mind,
    position: Position,
    depth: i32,
    ply: nat,
    alpha: int,
    beta: int,
)
    requires
        !model::consulted(task, answers, mind.without_line(ply)).aborted,
        !ruled_a_draw(position, mind.path),
        rules::legal(position).len() > 0,
        depth > 0,
        ply + 2 < MAX_PLY,
        table::known(mind.entries, game::hash(position)) is None,
        position.turn == task.victim || task.options.model == OpponentModel::Paranoid,
    ensures
        ({
            let counted = model::consulted(task, answers, mind.without_line(ply)).counting(ply);
            let child = rules::after(position, first_look(task, counted, position, depth, ply));
            let (after, led) = model::visit(
                task,
                answers,
                counted.stepping(game::hash(child)),
                child,
                (depth - 1) as i32,
                ply + 1,
                alpha,
                beta,
            );
            let value = model::visit(task, answers, mind, position, depth, ply, alpha, beta).1;
            !after.aborted ==> if position.turn == task.victim {
                value >= led
            } else {
                value <= led
            }
        }),
{
    reveal(model::visit);
    reveal(model::attempt);
    reveal(model::sweep);
    reveal(model::closing);
    let counted = model::consulted(task, answers, mind.without_line(ply)).counting(ply);
    let node = model::node_at(task, counted, position, depth, ply);
    let p = model::at_first(node.maximizing, alpha, beta);
    let m = ordering::nth_pick(node.moves, node.keys, 0);
    let (after, led) = model::attempt(
        task,
        answers,
        counted,
        position,
        m,
        depth,
        ply,
        alpha,
        beta,
    );
    lemma_sweep_improves(
        task,
        answers,
        model::noted(node, p, after, m, led),
        node,
        model::weighed(node, p, m, led),
    );
}

/// Never bank on being punished: at the turn of an opponent who is assumed to want
/// what the engine wants, a position is worth at most what their first reply brings
/// and the bonus, and it is a forced mate only where that reply is one too.
pub proof fn law_a_chance_can_be_declined(
    task: Task,
    answers: Answers,
    mind: Mind,
    position: Position,
    depth: i32,
    ply: nat,
    alpha: int,
    beta: int,
)
    requires
        !model::consulted(task, answers, mind.without_line(ply)).aborted,
        !ruled_a_draw(position, mind.path),
        rules::legal(position).len() > 0,
        depth > 0,
        ply + 2 < MAX_PLY,
        table::known(mind.entries, game::hash(position)) is None,
        position.turn != task.victim,
        task.options.model == OpponentModel::Optimistic,
        !model::visit(task, answers, mind, position, depth, ply, alpha, beta).0.aborted,
    ensures
        ({
            let counted = model::consulted(task, answers, mind.without_line(ply)).counting(ply);
            let child = rules::after(position, first_look(task, counted, position, depth, ply));
            let (after, led) = model::visit(
                task,
                answers,
                counted.stepping(game::hash(child)),
                child,
                (depth - 1) as i32,
                ply + 1,
                alpha,
                beta,
            );
            let value = model::visit(task, answers, mind, position, depth, ply, alpha, beta).1;
            &&& !after.aborted
            &&& value <= led + chess::larger(task.options.opportunity_bonus as int, 0)
            &&& value >= 29_872 ==> led >= 29_872
        }),
{
    reveal(model::visit);
    reveal(model::attempt);
    reveal(model::sweep);
    reveal(model::closing);
    let counted = model::consulted(task, answers, mind.without_line(ply)).counting(ply);
    let node = model::node_at(task, counted, position, depth, ply);
    let p = model::at_first(node.maximizing, alpha, beta);
    let m = ordering::nth_pick(node.moves, node.keys, 0);
    let (after, led) = model::attempt(
        task,
        answers,
        counted,
        position,
        m,
        depth,
        ply,
        alpha,
        beta,
    );
    lemma_sweep_improves(
        task,
        answers,
        model::noted(node, p, after, m, led),
        node,
        model::weighed(node, p, m, led),
    );
}

/// The most reluctant reply is looked at too: where the opponent has more replies than
/// are considered, a position is worth at most what the one they like least brings and
/// the bonus, and it is a forced mate only where that one is too.
pub proof fn law_the_most_reluctant_reply_counts(
    task: Task,
    answers: Answers,
    mind: Mind,
    node: Node,
    p: Progress,
    alpha: int,
    beta: int,
)
    requires
        !mind.aborted,
        node.hopeful,
        node.considered < node.moves.len(),
    ensures
        ({
            let (after, led) = model::attempt(
                task,
                answers,
                mind,
                node.position,
                model::reluctant(node, p.tried),
                node.depth,
                node.ply,
                p.alpha,
                p.beta,
            );
            let value = model::closing(task, answers, mind, node, p, alpha, beta).1;
            !after.aborted ==> {
                &&& value <= led + chess::larger(task.options.opportunity_bonus as int, 0)
                &&& value >= 29_872 ==> led >= 29_872
                &&& value >= chess::smaller(led, p.floor)
            }
        }),
{
    reveal(model::attempt);
    reveal(model::closing);
}

/// The victim always wants the score to go up. The opponent wants it to as well where
/// they are assumed to be playing to win, and to go down where they are not.
pub proof fn law_who_wants_what(
    task: Task,
    mind: Mind,
    position: Position,
    depth: i32,
    ply: nat,
)
    ensures
        ({
            let node = model::node_at(task, mind, position, depth, ply);
            &&& position.turn == task.victim ==> node.maximizing && !node.hopeful
            &&& position.turn != task.victim && task.options.model == OpponentModel::Optimistic
                ==> node.maximizing && node.hopeful
            &&& position.turn != task.victim && task.options.model == OpponentModel::Paranoid
                ==> !node.maximizing && !node.hopeful
            &&& node.moves == rules::legal(position)
        }),
{
}

/// Whether a count is another as far as there is as much, and at least one.
pub open spec fn as_many_as(count: nat, asked: int, there: nat) -> bool {
    &&& 1 <= count <= there
    &&& count <= asked || count == 1
    &&& count == there || count >= asked
}

/// How many moves are considered: as many replies of a willing opponent as the
/// settings say, as many of any other player's moves as they say within four plies of
/// the leaves, and all of them further up; but always one.
pub proof fn law_how_many_moves_are_considered(
    task: Task,
    mind: Mind,
    position: Position,
    depth: i32,
    ply: nat,
)
    requires
        rules::legal(position).len() > 0,
    ensures
        ({
            let considered = model::node_at(task, mind, position, depth, ply).considered;
            let there = rules::legal(position).len();
            if position.turn != task.victim && task.options.model == OpponentModel::Optimistic {
                as_many_as(considered, task.options.opponent_moves as int, there)
            } else if depth <= 4 {
                as_many_as(considered, task.options.own_moves as int, there)
            } else {
                considered == there
            }
        }),
{
}

/// After a move has come back with a score, the best is the better of the two to
/// whoever is to move, with the move that brought it; the floor is the lower; and the
/// window narrows from the side of the player to move, to no further than the best.
pub proof fn law_a_score_is_weighed(node: Node, p: Progress, m: Move, score: int)
    ensures
        ({
            let next = model::weighed(node, p, m, score);
            let better = if node.maximizing {
                score > p.best
            } else {
                score < p.best
            };
            &&& next.tried == p.tried + 1
            &&& better ==> next.best == score && next.best_move == Some(m)
            &&& !better ==> next.best == p.best && next.best_move == p.best_move
            &&& next.floor <= p.floor && next.floor <= score
            &&& next.floor == p.floor || next.floor == score
            &&& node.maximizing ==> next.beta == p.beta && next.alpha >= p.alpha && next.alpha
                >= next.best && (next.alpha == p.alpha || next.alpha == next.best)
            &&& !node.maximizing ==> next.alpha == p.alpha && next.beta <= p.beta && next.beta
                <= next.best && (next.beta == p.beta || next.beta == next.best)
        }),
{
}

/// The moves of a node are tried until the window is closed, or until the engine is
/// mated at once. A mate that an opponent merely could play ends nothing, and nor does
/// one that is further away.
pub proof fn law_when_a_node_is_done(node: Node, p: Progress, m: Move, score: int)
    ensures
        ({
            let next = model::weighed(node, p, m, score);
            &&& next.alpha >= next.beta ==> next.done
            &&& node.maximizing && !node.hopeful && next.best >= 30_000 - node.ply - 1 ==> next.done
            &&& next.alpha < next.beta && (node.hopeful || !node.maximizing) ==> !next.done
            &&& next.alpha < next.beta && next.best < 30_000 - node.ply - 1 ==> !next.done
        }),
{
}

/// What is learned from a move: where it is the best so far the expected line is the
/// move and what is expected after it, and where it closes the window and is quiet it
/// is remembered for its ply. Nothing else changes.
pub proof fn law_what_a_move_teaches(node: Node, p: Progress, mind: Mind, m: Move, score: int)
    requires
        node.ply + 1 < mind.pv.len(),
        node.ply < mind.killers.len(),
    ensures
        ({
            let next = model::weighed(node, p, m, score);
            let after = model::noted(node, p, mind, m, score);
            let ply = node.ply as int;
            &&& next.best_move == Some(m) && next.best != p.best ==> after.pv[ply] == seq![m]
                + mind.pv[ply + 1]
            &&& next.best == p.best ==> after.pv == mind.pv
            &&& forall|i: int| 0 <= i < mind.pv.len() && i != ply ==> after.pv[i] == mind.pv[i]
            &&& is_loud(m) || next.alpha < next.beta ==> after.killers == mind.killers
            &&& !is_loud(m) && next.alpha >= next.beta ==> after.killers[ply].0 == Some(m)
            &&& forall|i: int|
                0 <= i < mind.killers.len() && i != ply ==> after.killers[i] == mind.killers[i]
            &&& after.entries == mind.entries && after.path == mind.path && after.nodes
                == mind.nodes
        }),
{
}

/// What has been found out about a position is found again: asked about it at the same
/// ply, to the same depth and within the same window, the table gives the value that
/// was settled on, unless it knew a deeper exact one.
pub proof fn law_what_was_settled_is_remembered(
    mind: Mind,
    node: Node,
    best: int,
    best_move: Option<Move>,
    alpha: int,
    beta: int,
)
    requires
        mind.entries.len() > 0,
        0 <= node.depth <= i16::MAX,
        node.ply <= MAX_PLY,
        -1_000_000 < best < 1_000_000,
        table::known(mind.entries, game::hash(node.position)) matches Some(old) ==> old.depth
            <= node.depth || old.bound != Bound::Exact,
    ensures
        ({
            let (after, value) = model::settled(mind, node, best, best_move, alpha, beta);
            let key = game::hash(node.position);
            &&& value == best
            &&& model::recollection(after, key, node.depth, node.ply, alpha, beta) == Some(best)
            &&& model::suggestion(after, key) == best_move
        }),
{
    let entry = Entry {
        key: game::hash(node.position),
        best: best_move,
        score: score::kept(best, node.ply as int) as i32,
        depth: node.depth as i16,
        bound: if best <= alpha {
            Bound::Upper
        } else if best >= beta {
            Bound::Lower
        } else {
            Bound::Exact
        },
    };
    table::law_news_replaces_what_is_no_better(mind.entries, entry);
}

/// What is settled on is exact only where it lies inside the window; beyond it, it is
/// a bound from the side on which the window was left.
pub proof fn law_a_bound_is_kept_as_a_bound(
    mind: Mind,
    node: Node,
    best: int,
    best_move: Option<Move>,
    alpha: int,
    beta: int,
)
    requires
        mind.entries.len() > 0,
        node.depth >= 0,
        (node.depth as i16) >= 0,
        alpha < beta,
        table::known(mind.entries, game::hash(node.position)) is None,
    ensures
        ({
            let after = model::settled(mind, node, best, best_move, alpha, beta).0;
            let entry = table::known(after.entries, game::hash(node.position));
            &&& entry is Some
            &&& entry->0.bound == Bound::Exact <==> alpha < best < beta
            &&& entry->0.bound == Bound::Lower <==> best >= beta
            &&& entry->0.bound == Bound::Upper <==> best <= alpha
            &&& entry->0.depth == node.depth as i16
        }),
{
    vstd::arithmetic::div_mod::lemma_mod_bound(
        game::hash(node.position) as int,
        mind.entries.len() as int,
    );
}

/// What the table knows is used only where it decides: a result as deep as is asked
/// for that is exact, or a bound that lies beyond the window on its own side. Then the
/// position is not searched again.
pub proof fn law_what_is_known_is_not_searched_again(
    task: Task,
    answers: Answers,
    mind: Mind,
    position: Position,
    depth: i32,
    ply: nat,
    alpha: int,
    beta: int,
)
    requires
        !model::consulted(task, answers, mind.without_line(ply)).aborted,
        !ruled_a_draw(position, mind.path),
        rules::legal(position).len() > 0,
        0 < depth <= i16::MAX,
        ply + 2 < MAX_PLY,
        table::known(mind.entries, game::hash(position)) is Some,
    ensures
        ({
            let entry = table::known(mind.entries, game::hash(position))->0;
            let counted = model::consulted(task, answers, mind.without_line(ply)).counting(ply);
            let known = score::recalled(entry.score as int, ply as int);
            let decides = entry.depth >= depth && (entry.bound == Bound::Exact || (entry.bound
                == Bound::Lower && known >= beta) || (entry.bound == Bound::Upper && known
                <= alpha));
            &&& decides ==> model::visit(task, answers, mind, position, depth, ply, alpha, beta)
                == (counted, known)
            &&& !decides ==> model::recollection(
                counted,
                game::hash(position),
                depth,
                ply,
                alpha,
                beta,
            ) is None
        }),
{
    reveal(model::visit);
}

/// The world outside is asked every 2048 nodes, once the search may stop. A raised
/// flag stops it, and so does a clock that has reached the budget; neither does so
/// before. The node limit stops it without asking.
pub proof fn law_when_a_search_stops(task: Task, answers: Answers, mind: Mind)
    requires
        !mind.aborted,
    ensures
        ({
            let after = model::consulted(task, answers, mind);
            let spent = task.node_limit is Some && mind.nodes >= task.node_limit->0;
            let asks = mind.can_abort && !spent && mind.nodes % 2048 == 0;
            let flag = answers(mind.asked as int);
            let clock = answers(mind.asked as int + 1);
            &&& !mind.can_abort ==> after == mind
            &&& mind.can_abort && spent ==> after.aborted && after.asked == mind.asked
            &&& mind.can_abort && !spent && mind.nodes % 2048 != 0 ==> after == mind
            &&& asks && flag == Answer::Flag(true) ==> after.aborted
            &&& asks && flag == Answer::Flag(false) && task.budget is None ==> !after.aborted
            &&& asks && flag == Answer::Flag(false) && task.budget is Some && clock is Clock ==> (
            after.aborted <==> clock->Clock_0 >= task.budget->0)
            &&& after == (Mind { aborted: after.aborted, asked: after.asked, ..mind })
        }),
{
}

/// Each visit counts one node, and remembers the deepest ply.
pub proof fn law_a_visit_counts_a_node(mind: Mind, ply: nat)
    requires
        mind.nodes < u64::MAX,
    ensures
        mind.counting(ply).nodes == mind.nodes + 1,
        mind.counting(ply).seldepth >= ply,
        mind.counting(ply).seldepth >= mind.seldepth,
        mind.counting(ply).seldepth == ply || mind.counting(ply).seldepth == mind.seldepth,
{
}

/// An exchange is passed over only out of check, by a player who wants more, where
/// what stands on the two squares and two pawns on top would not reach what has
/// already been found.
pub proof fn law_only_hopeless_exchanges_are_skipped(node: Skirmish, best: int, m: Move)
    ensures
        node.in_check || !node.maximizing ==> !model::hopeless(node, best, m),
        best <= node.stand_pat ==> !model::hopeless(node, best, m),
        !node.in_check && node.maximizing ==> (model::hopeless(node, best, m) <==> best
            >= node.stand_pat + 200 + eval::worth(m.moved()) + (match m.captured() {
            Some(role) => eval::worth(role),
            None => 100,
        })),
{
}

/// A root move that comes back with a score is scored with it, and becomes the move to
/// play where it is the first or scores higher than all before; the line is then that
/// move and what is expected after it. Among equals the earlier one stays.
pub proof fn law_the_best_root_move_is_kept(r: Round, score: i32, reply: Seq<Move>)
    requires
        r.tried < r.roots.len(),
    ensures
        ({
            let next = model::tallied(r, score as int, reply);
            let m = r.roots[r.tried as int].m;
            &&& next.tried == r.tried + 1
            &&& next.roots.len() == r.roots.len()
            &&& next.roots[r.tried as int] == RootMove { m, score }
            &&& forall|i: int|
                0 <= i < r.roots.len() && i != r.tried ==> next.roots[i] == r.roots[i]
            &&& r.tried == 0 || score > r.alpha ==> next.alpha == score && next.best == Some(m)
                && next.line == seq![m] + reply
            &&& r.tried > 0 && score <= r.alpha ==> next.alpha == r.alpha && next.best == r.best
                && next.line == r.line
        }),
{
}

/// A pass over a single root move scores it as the move leads to, to the depth of the
/// pass and with an open window, and puts it forward.
pub proof fn law_a_pass_over_one_root_move(
    task: Task,
    answers: Answers,
    mind: Mind,
    position: Position,
    depth: nat,
    root: RootMove,
)
    requires
        0 < depth <= i32::MAX,
    ensures
        ({
            let child = rules::after(position, root.m);
            let (after, led) = model::visit(
                task,
                answers,
                mind.stepping(game::hash(child)),
                child,
                (depth - 1) as i32,
                1,
                -32_000,
                32_000,
            );
            let (end, r) = model::pass(
                task,
                answers,
                mind,
                position,
                depth,
                model::unplayed(seq![root]),
            );
            !after.aborted ==> {
                &&& r.alpha == led
                &&& r.best == Some(root.m)
                &&& r.line == seq![root.m] + after.pv[1]
                &&& end.can_abort && !end.aborted
            }
        }),
{
    reveal(model::visit);
    reveal(model::attempt);
    reveal_with_fuel(model::pass, 2);
}

/// A search begins with every move that may be played and none of them scored, and
/// puts forward one that costs the engine at least as much as any other: before it has
/// looked any further, the costliest move is its best guess.
pub proof fn law_a_search_begins_with_the_costliest_move(
    position: Position,
    wanted: Seq<Move>,
    m: Move,
)
    requires
        model::candidates(position, wanted).contains(m),
    ensures
        ({
            let s = model::before_searching(position, wanted);
            &&& s.best is Some
            &&& model::candidates(position, wanted).contains(s.best->0)
            &&& s.line == seq![s.best->0]
            &&& s.depth == 0 && !s.finished
            &&& s.roots.len() == model::candidates(position, wanted).len()
            &&& forall|i: int| 0 <= i < s.roots.len() ==> (#[trigger] s.roots[i]).score == -32_000
            &&& (ordering::order_value(
                position,
                s.best->0,
                position.turn,
                true,
                (None, None),
                None,
            ) as i32) >= (ordering::order_value(
                position,
                m,
                position.turn,
                true,
                (None, None),
                None,
            ) as i32)
        }),
{
    let moves = model::candidates(position, wanted);
    let keyed = model::keyed(position, position.turn, moves);
    let ranked = ordering::ranked(keyed, moves.len());
    ordering::law_ranking_puts_the_best_first(keyed, moves.len());
    ordering::lemma_ranked(keyed, moves.len());
    let j = choose|j: int| 0 <= j < moves.len() && moves[j] == m;
    assert(keyed[j].m == m);
    assert(keyed.take(moves.len() as int) =~= keyed);
    keyed.to_multiset_ensures();
    ranked.to_multiset_ensures();
    assert(keyed.contains(keyed[j]));
    assert(ranked.to_multiset().count(keyed[j]) > 0);
    assert(ranked.contains(keyed[j]));
    let i = choose|i: int| 0 <= i < ranked.len() && ranked[i] == keyed[j];
    assert(ranked[0].score >= ranked[i].score);
    assert(keyed.contains(ranked[0]));
    let k = choose|k: int| 0 <= k < keyed.len() && keyed[k] == ranked[0];
    assert(moves.contains(moves[k]));
}

/// A pass that was broken off changes nothing that was decided, and says nothing; one
/// that was completed goes a ply deeper, reports what it decided, and ends the search
/// where the result is forced or the time is up.
pub proof fn law_a_pass_counts_when_it_is_completed(
    task: Task,
    answers: Answers,
    mind: Mind,
    position: Position,
    s: Standing,
)
    ensures
        ({
            let (after, next, report) = model::deepened(task, answers, mind, position, s);
            &&& after.aborted <==> report is None
            &&& after.aborted ==> next.best == s.best && next.sabotage == s.sabotage && next.depth
                == s.depth && next.line == s.line && next.finished
            &&& !after.aborted ==> next.depth == s.depth + 1
            &&& report matches Some(report) ==> {
                &&& report.depth == next.depth && report.line == next.line && report.sabotage
                    == next.sabotage
                &&& report.nodes == after.nodes
                &&& report.score is Mate ==> next.finished
                &&& report.score is Centipawns && task.budget is None ==> !next.finished
            }
        }),
{
}

/// A new search starts from the game's history with nothing counted, nothing asked and
/// nothing expected; of what was learned before it only the table is left.
pub proof fn law_a_new_search_starts_afresh(mind: Mind, trail: Seq<u64>)
    ensures
        ({
            let fresh = model::refreshed(mind, trail);
            &&& fresh.path == trail
            &&& fresh.entries == mind.entries
            &&& fresh.nodes == 0 && fresh.seldepth == 0 && fresh.asked == 0
            &&& !fresh.can_abort && !fresh.aborted
            &&& forall|i: int| 0 <= i < fresh.pv.len() ==> (#[trigger] fresh.pv[i]).len() == 0
            &&& forall|i: int|
                0 <= i < fresh.killers.len() ==> (#[trigger] fresh.killers[i]).0 is None
                    && fresh.killers[i].1 is None
        }),
{
}

/// At a node the move that the table remembers for the position is looked at first, and a
/// move that has refuted something at the same ply is worth a step more than it would be
/// otherwise; nothing else that was learned has a say in the order.
pub proof fn law_what_was_learned_orders_the_moves(
    task: Task,
    mind: Mind,
    naive: Mind,
    position: Position,
    depth: i32,
    ply: nat,
    i: int,
)
    requires
        0 <= i < rules::legal(position).len(),
        naive.killers[ply as int].0 is None,
        naive.killers[ply as int].1 is None,
        table::known(naive.entries, game::hash(position)) is None,
    ensures
        ({
            let m = rules::legal(position)[i];
            let key = model::node_at(task, mind, position, depth, ply).keys[i];
            let plain = model::node_at(task, naive, position, depth, ply).keys[i];
            let remembered = table::known(mind.entries, game::hash(position)) matches Some(entry)
                && entry.best == Some(m);
            let killer = mind.killers[ply as int].0 == Some(m) || mind.killers[ply as int].1 == Some(
                m,
            );
            &&& -1_000_000 < plain < 1_000_000
            &&& remembered ==> key == 1_000_000
            &&& !remembered && killer ==> key == plain + 5000
            &&& !remembered && !killer ==> key == plain
            &&& plain == ordering::attraction(
                ordering::price(m) + ordering::stake(position, m),
                position.turn == task.victim,
                position.turn == task.victim || task.options.model == OpponentModel::Optimistic,
            )
        }),
{
    let m = rules::legal(position)[i];
    assert(-2000 <= ordering::price(m) <= 2000);
    assert(0 <= ordering::stake(position, m) <= 1000);
}

/// In the quiescence search exchanges are looked at in the order of what they cost the
/// player who makes them, or gain, as the node goes.
pub proof fn law_what_orders_the_exchanges(
    task: Task,
    position: Position,
    ply: nat,
    remaining: nat,
    moves: Seq<Move>,
    in_check: bool,
    stand_pat: int,
    i: int,
)
    requires
        0 <= i < moves.len(),
    ensures
        ({
            let node = model::skirmish_at(
                task,
                position,
                ply,
                remaining,
                moves,
                in_check,
                stand_pat,
            );
            let cost = eval::worth(moves[i].moved()) / 2 + ordering::price(moves[i]);
            let key = node.keys[i];
            &&& node.keys.len() == moves.len()
            &&& position.turn == task.victim ==> key == cost
            &&& position.turn != task.victim && task.options.model == OpponentModel::Optimistic
                ==> key == -cost
            &&& position.turn != task.victim && task.options.model == OpponentModel::Paranoid
                ==> key == cost
        }),
{
    assert(-2000 <= ordering::price(moves[i]) <= 2000);
}

/// Out of check, a position that is beyond the window as it stands is worth its
/// evaluation, and nothing more than the position itself is looked at.
pub proof fn law_what_is_good_enough_is_left(
    task: Task,
    answers: Answers,
    mind: Mind,
    position: Position,
    ply: nat,
    remaining: nat,
    alpha: int,
    beta: int,
)
    requires
        !model::consulted(task, answers, mind).aborted,
        position.halfmoves < 100,
        !position.is_dead(),
        !position.in_check(),
        mind.nodes < u64::MAX,
    ensures
        ({
            let leaf = score::leaf_value(task.factor, task.victim, task.options, position);
            let rises = position.turn == task.victim || task.options.model
                == OpponentModel::Optimistic;
            let (after, worth) = model::quiescence(
                task,
                answers,
                mind,
                position,
                ply,
                remaining,
                alpha,
                beta,
            );
            rises && leaf >= beta || !rises && leaf <= alpha ==> worth == leaf && after.nodes
                == mind.nodes + 1
        }),
{
    reveal(model::quiescence);
    reveal(model::skirmishes);
}

/// The last root move of a pass is searched in what the moves before it have left of the
/// window, and replaces the best of them only where it is better.
pub proof fn law_a_root_move_has_to_beat_the_best(
    task: Task,
    answers: Answers,
    mind: Mind,
    position: Position,
    depth: nat,
    r: Round,
)
    requires
        0 < depth <= i32::MAX,
        r.tried > 0,
        r.tried + 1 == r.roots.len(),
    ensures
        ({
            let m = r.roots.last().m;
            let child = rules::after(position, m);
            let (after, led) = model::visit(
                task,
                answers,
                mind.stepping(game::hash(child)),
                child,
                (depth - 1) as i32,
                1,
                r.alpha,
                32_000,
            );
            let (end, all) = model::pass(task, answers, mind, position, depth, r);
            &&& after.aborted ==> all == r && end.aborted
            &&& !after.aborted && led <= r.alpha ==> all.best == r.best && all.line == r.line
                && all.alpha == r.alpha
            &&& !after.aborted && led > r.alpha ==> all.best == Some(m) && all.alpha == led
                && all.line == seq![m] + after.pv[1]
        }),
{
    reveal(model::visit);
    reveal(model::attempt);
    reveal_with_fuel(model::pass, 2);
}

/// After a pass the moves are in the order of their scores, best first, for the next one;
/// how deep the pass has looked does not depend on the passes before it; and the score that
/// is reported is that of the best move, seen from the player who moves.
pub proof fn law_a_pass_prepares_the_next(
    task: Task,
    answers: Answers,
    mind: Mind,
    position: Position,
    s: Standing,
    seldepth: int,
    i: int,
    j: int,
)
    ensures
        ({
            let (after, next, report) = model::deepened(task, answers, mind, position, s);
            &&& !after.aborted && 0 <= i < j < next.roots.len() ==> next.roots[i].score
                >= next.roots[j].score
            &&& model::deepened(task, answers, Mind { seldepth, ..mind }, position, s) == (
                after,
                next,
                report,
            )
            &&& report matches Some(report) ==> {
                &&& report.seldepth == after.seldepth
                &&& report.score is Centipawns && -32_000 <= next.sabotage <= 32_000 && task.factor
                    != 0 ==> report.score->Centipawns_0 == -next.sabotage
            }
        }),
{
    let (after, r) = model::pass(
        task,
        answers,
        Mind { seldepth: 0, ..mind },
        position,
        s.depth + 1,
        model::unplayed(s.roots),
    );
    ordering::law_ranking_puts_the_best_first(r.roots, r.roots.len());
}

/// Of the moves that refuted something at a ply the last two are kept, the last one first,
/// each of them once; other plies have their own.
pub proof fn law_the_last_two_refutations_are_kept(
    mind: Mind,
    ply: nat,
    m: Move,
    n: Move,
    other: int,
)
    requires
        ply < mind.killers.len(),
        0 <= other < mind.killers.len(),
        other != ply,
        m != n,
    ensures
        mind.crediting(ply, m).crediting(ply, n).killers[ply as int] == (Some(n), Some(m)),
        mind.crediting(ply, m).crediting(ply, m) == mind.crediting(ply, m),
        mind.crediting(ply, m).killers[other] == mind.killers[other],
        mind.crediting(ply, m).killers.len() == mind.killers.len(),
        mind.crediting(ply, m) == (Mind { killers: mind.crediting(ply, m).killers, ..mind }),
{
}

} // verus!
