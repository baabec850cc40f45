//! What holds of every search.

use vstd::prelude::*;

use crate::chess::{Move, Position};
use crate::game;
use crate::rules;
use crate::search::model;
use crate::search::model::{
    Answers, Mind, Node, Progress, Report, Round, Skirmish, Standing, Task, QUIESCENCE_PLIES,
};
use crate::search::ordering;
use crate::search::score;
use crate::search::score::{INFINITY, MAX_PLY};

verus! {

/// What every part of a search leaves as it was, and what only grows: the path is
/// put back, a decision to stop stands, no answer is forgotten, no node is
/// uncounted, and a search that may stop does not go beyond its node limit.
pub open spec fn keeps(task: Task, before: Mind, after: Mind) -> bool {
    &&& after.path == before.path
    &&& after.can_abort == before.can_abort
    &&& before.aborted ==> after.aborted
    &&& before.asked <= after.asked
    &&& before.nodes <= after.nodes
    &&& before.can_abort && task.node_limit is Some && before.nodes <= task.node_limit->0
        ==> after.nodes <= task.node_limit->0
}

proof fn lemma_entering_keeps(task: Task, answers: Answers, mind: Mind, ply: nat)
    ensures
        keeps(task, mind, model::consulted(task, answers, mind)),
        !model::consulted(task, answers, mind).aborted ==> keeps(
            task,
            mind,
            model::consulted(task, answers, mind).counting(ply),
        ),
{
}

/// A visit puts the path back, leaves the rest of the search in order, and stays
/// within the node limit once the search may stop.
pub proof fn law_a_visit_leaves_things_in_order(
    task: Task,
    answers: Answers,
    mind: Mind,
    position: Position,
    depth: i32,
    ply: nat,
    alpha: int,
    beta: int,
)
    ensures
        keeps(
            task,
            mind,
            model::visit(task, answers, mind, position, depth, ply, alpha, beta).0,
        ),
    decreases MAX_PLY - ply, 5nat, 0nat,
{
    reveal(model::visit);
    reveal(model::sweep);
    reveal(model::closing);
    let cleared = mind.without_line(ply);
    lemma_entering_keeps(task, answers, cleared, ply);
    let asked = model::consulted(task, answers, cleared);
    let counted = asked.counting(ply);
    if asked.aborted || model::drawn(position, counted.path) || rules::legal(position).len() == 0 {
    } else if depth <= 0 || ply + 2 >= MAX_PLY {
        law_quiescence_leaves_things_in_order(
            task,
            answers,
            counted,
            position,
            ply,
            QUIESCENCE_PLIES as nat,
            alpha,
            beta,
        );
    } else if model::recollection(
        counted,
        game::hash(position),
        depth,
        ply,
        alpha,
        beta,
    ) is None {
        let node = model::node_at(task, counted, position, depth, ply);
        let first = model::at_first(node.maximizing, alpha, beta);
        lemma_sweep_keeps(task, answers, counted, node, first);
        let (swept, p) = model::sweep(task, answers, counted, node, first);
        lemma_closing_keeps(task, answers, swept, node, p, alpha, beta);
    }
}

proof fn lemma_attempt_keeps(
    task: Task,
    answers: Answers,
    mind: Mind,
    position: Position,
    m: Move,
    depth: i32,
    ply: nat,
    alpha: int,
    beta: int,
)
    ensures
        keeps(
            task,
            mind,
            model::attempt(task, answers, mind, position, m, depth, ply, alpha, beta).0,
        ),
    decreases MAX_PLY - ply, 2nat, 0nat,
{
    reveal(model::visit);
    reveal(model::attempt);
    if ply < MAX_PLY {
        let child = rules::after(position, m);
        let stepping = mind.stepping(game::hash(child));
        law_a_visit_leaves_things_in_order(
            task,
            answers,
            stepping,
            child,
            (depth - 1) as i32,
            ply + 1,
            alpha,
            beta,
        );
        assert(stepping.path.drop_last() =~= mind.path);
    }
}

proof fn lemma_sweep_keeps(task: Task, answers: Answers, mind: Mind, node: Node, p: Progress)
    ensures
        keeps(task, mind, model::sweep(task, answers, mind, node, p).0),
    decreases MAX_PLY - node.ply, 3nat, node.considered - p.tried,
{
    reveal(model::attempt);
    reveal(model::sweep);
    if !p.done && p.tried < node.considered {
        let m = ordering::nth_pick(node.moves, node.keys, p.tried);
        lemma_attempt_keeps(
            task,
            answers,
            mind,
            node.position,
            m,
            node.depth,
            node.ply,
            p.alpha,
            p.beta,
        );
        let (after, score) = model::attempt(
            task,
            answers,
            mind,
            node.position,
            m,
            node.depth,
            node.ply,
            p.alpha,
            p.beta,
        );
        if !after.aborted {
            let noted = model::noted(node, p, after, m, score);
            assert(keeps(task, after, noted));
            lemma_sweep_keeps(task, answers, noted, node, model::weighed(node, p, m, score));
        }
    }
}

proof fn lemma_closing_keeps(
    task: Task,
    answers: Answers,
    mind: Mind,
    node: Node,
    p: Progress,
    alpha: int,
    beta: int,
)
    ensures
        keeps(task, mind, model::closing(task, answers, mind, node, p, alpha, beta).0),
    decreases MAX_PLY - node.ply, 3nat, 0nat,
{
    reveal(model::attempt);
    reveal(model::closing);
    if !mind.aborted && node.hopeful && node.considered < node.moves.len() {
        lemma_attempt_keeps(
            task,
            answers,
            mind,
            node.position,
            model::reluctant(node, p.tried),
            node.depth,
            node.ply,
            p.alpha,
            p.beta,
        );
    }
}

/// The quiescence search puts nothing on the path, leaves the rest of the search
/// in order, and stays within the node limit once the search may stop.
pub proof fn law_quiescence_leaves_things_in_order(
    task: Task,
    answers: Answers,
    mind: Mind,
    position: Position,
    ply: nat,
    remaining: nat,
    alpha: int,
    beta: int,
)
    ensures
        keeps(
            task,
            mind,
            model::quiescence(task, answers, mind, position, ply, remaining, alpha, beta).0,
        ),
        model::quiescence(task, answers, mind, position, ply, remaining, alpha, beta).0.entries
            == mind.entries,
        model::quiescence(task, answers, mind, position, ply, remaining, alpha, beta).0.pv
            == mind.pv,
    decreases MAX_PLY - ply, 1nat, 0nat,
{
    reveal(model::quiescence);
    reveal(model::skirmishes);
    lemma_entering_keeps(task, answers, mind, ply);
    let asked = model::consulted(task, answers, mind);
    let counted = asked.counting(ply);
    let maximizing = model::maximizing(task, position.turn);
    let leaf = score::leaf_value(task.factor, task.victim, task.options, position);
    lemma_skirmishes_keep(
        task,
        answers,
        counted,
        model::skirmish_at(task, position, ply, remaining, rules::legal(position), true, 0),
        model::at_first(maximizing, alpha, beta),
    );
    lemma_skirmishes_keep(
        task,
        answers,
        counted,
        model::skirmish_at(
            task,
            position,
            ply,
            remaining,
            ordering::loud(position),
            false,
            leaf,
        ),
        model::standing(maximizing, alpha, beta, leaf),
    );
}

proof fn lemma_skirmishes_keep(
    task: Task,
    answers: Answers,
    mind: Mind,
    node: Skirmish,
    p: Progress,
)
    ensures
        keeps(task, mind, model::skirmishes(task, answers, mind, node, p).0),
        model::skirmishes(task, answers, mind, node, p).0.entries == mind.entries,
        model::skirmishes(task, answers, mind, node, p).0.pv == mind.pv,
    decreases MAX_PLY - node.ply, 0nat, node.moves.len() - p.tried,
{
    reveal(model::quiescence);
    reveal(model::skirmishes);
    if !p.done && p.tried < node.moves.len() && node.ply < MAX_PLY && node.remaining > 0 {
        let m = ordering::nth_pick(node.moves, node.keys, p.tried);
        if model::hopeless(node, p.best, m) {
            lemma_skirmishes_keep(
                task,
                answers,
                mind,
                node,
                Progress { tried: p.tried + 1, ..p },
            );
        } else {
            let child = rules::after(node.position, m);
            law_quiescence_leaves_things_in_order(
                task,
                answers,
                mind,
                child,
                node.ply + 1,
                (node.remaining - 1) as nat,
                p.alpha,
                p.beta,
            );
            let (after, score) = model::quiescence(
                task,
                answers,
                mind,
                child,
                node.ply + 1,
                (node.remaining - 1) as nat,
                p.alpha,
                p.beta,
            );
            if !after.aborted {
                lemma_skirmishes_keep(task, answers, after, node, model::fought(node, p, score));
            }
        }
    }
}

/// A search that has been told to stop, or has visited as many nodes as it may,
/// visits nothing more.
pub proof fn law_a_stopped_search_visits_nothing(
    task: Task,
    answers: Answers,
    mind: Mind,
    position: Position,
    depth: i32,
    ply: nat,
    alpha: int,
    beta: int,
)
    requires
        mind.aborted || (mind.can_abort && task.node_limit is Some && mind.nodes
            >= task.node_limit->0),
    ensures
        model::visit(task, answers, mind, position, depth, ply, alpha, beta) == (
            Mind { aborted: true, ..mind.without_line(ply) },
            0int,
        ),
{
    reveal(model::visit);
}

/// Until the first root move has been searched, nothing can stop the search: it
/// asks nobody, and it is not broken off.
pub proof fn law_the_first_root_move_is_always_searched(
    task: Task,
    answers: Answers,
    mind: Mind,
    position: Position,
    depth: i32,
    ply: nat,
    alpha: int,
    beta: int,
)
    requires
        !mind.can_abort,
        !mind.aborted,
    ensures
        !model::visit(task, answers, mind, position, depth, ply, alpha, beta).0.aborted,
        model::visit(task, answers, mind, position, depth, ply, alpha, beta).0.asked == mind.asked,
    decreases MAX_PLY - ply, 5nat, 0nat,
{
    reveal(model::visit);
    reveal(model::attempt);
    reveal(model::sweep);
    let counted = mind.without_line(ply).counting(ply);
    if model::drawn(position, counted.path) || rules::legal(position).len() == 0 {
    } else if depth <= 0 || ply + 2 >= MAX_PLY {
        lemma_unstoppable_quiescence(
            task,
            answers,
            counted,
            position,
            ply,
            QUIESCENCE_PLIES as nat,
            alpha,
            beta,
        );
    } else if model::recollection(
        counted,
        game::hash(position),
        depth,
        ply,
        alpha,
        beta,
    ) is None {
        let node = model::node_at(task, counted, position, depth, ply);
        let first = model::at_first(node.maximizing, alpha, beta);
        lemma_unstoppable_sweep(task, answers, counted, node, first);
        let (swept, p) = model::sweep(task, answers, counted, node, first);
        lemma_sweep_keeps(task, answers, counted, node, first);
        if node.hopeful && node.considered < node.moves.len() {
            lemma_unstoppable_attempt(
                task,
                answers,
                swept,
                node.position,
                model::reluctant(node, p.tried),
                node.depth,
                node.ply,
                p.alpha,
                p.beta,
            );
        }
    }
}

proof fn lemma_unstoppable_attempt(
    task: Task,
    answers: Answers,
    mind: Mind,
    position: Position,
    m: Move,
    depth: i32,
    ply: nat,
    alpha: int,
    beta: int,
)
    requires
        !mind.can_abort,
        !mind.aborted,
    ensures
        !model::attempt(task, answers, mind, position, m, depth, ply, alpha, beta).0.aborted,
        model::attempt(task, answers, mind, position, m, depth, ply, alpha, beta).0.asked
            == mind.asked,
    decreases MAX_PLY - ply, 2nat, 0nat,
{
    reveal(model::visit);
    reveal(model::attempt);
    if ply < MAX_PLY {
        let child = rules::after(position, m);
        law_the_first_root_move_is_always_searched(
            task,
            answers,
            mind.stepping(game::hash(child)),
            child,
            (depth - 1) as i32,
            ply + 1,
            alpha,
            beta,
        );
    }
}

proof fn lemma_unstoppable_sweep(
    task: Task,
    answers: Answers,
    mind: Mind,
    node: Node,
    p: Progress,
)
    requires
        !mind.can_abort,
        !mind.aborted,
    ensures
        !model::sweep(task, answers, mind, node, p).0.aborted,
        model::sweep(task, answers, mind, node, p).0.asked == mind.asked,
    decreases MAX_PLY - node.ply, 3nat, node.considered - p.tried,
{
    reveal(model::attempt);
    reveal(model::sweep);
    if !p.done && p.tried < node.considered {
        let m = ordering::nth_pick(node.moves, node.keys, p.tried);
        lemma_unstoppable_attempt(
            task,
            answers,
            mind,
            node.position,
            m,
            node.depth,
            node.ply,
            p.alpha,
            p.beta,
        );
        lemma_attempt_keeps(
            task,
            answers,
            mind,
            node.position,
            m,
            node.depth,
            node.ply,
            p.alpha,
            p.beta,
        );
        let (after, score) = model::attempt(
            task,
            answers,
            mind,
            node.position,
            m,
            node.depth,
            node.ply,
            p.alpha,
            p.beta,
        );
        lemma_unstoppable_sweep(
            task,
            answers,
            model::noted(node, p, after, m, score),
            node,
            model::weighed(node, p, m, score),
        );
    }
}

proof fn lemma_unstoppable_quiescence(
    task: Task,
    answers: Answers,
    mind: Mind,
    position: Position,
    ply: nat,
    remaining: nat,
    alpha: int,
    beta: int,
)
    requires
        !mind.can_abort,
        !mind.aborted,
    ensures
        !model::quiescence(task, answers, mind, position, ply, remaining, alpha, beta).0.aborted,
        model::quiescence(task, answers, mind, position, ply, remaining, alpha, beta).0.asked
            == mind.asked,
    decreases MAX_PLY - ply, 1nat, 0nat,
{
    reveal(model::quiescence);
    reveal(model::skirmishes);
    let counted = mind.counting(ply);
    let maximizing = model::maximizing(task, position.turn);
    let leaf = score::leaf_value(task.factor, task.victim, task.options, position);
    lemma_unstoppable_skirmishes(
        task,
        answers,
        counted,
        model::skirmish_at(task, position, ply, remaining, rules::legal(position), true, 0),
        model::at_first(maximizing, alpha, beta),
    );
    lemma_unstoppable_skirmishes(
        task,
        answers,
        counted,
        model::skirmish_at(
            task,
            position,
            ply,
            remaining,
            ordering::loud(position),
            false,
            leaf,
        ),
        model::standing(maximizing, alpha, beta, leaf),
    );
}

proof fn lemma_unstoppable_skirmishes(
    task: Task,
    answers: Answers,
    mind: Mind,
    node: Skirmish,
    p: Progress,
)
    requires
        !mind.can_abort,
        !mind.aborted,
    ensures
        !model::skirmishes(task, answers, mind, node, p).0.aborted,
        model::skirmishes(task, answers, mind, node, p).0.asked == mind.asked,
    decreases MAX_PLY - node.ply, 0nat, node.moves.len() - p.tried,
{
    reveal(model::quiescence);
    reveal(model::skirmishes);
    if !p.done && p.tried < node.moves.len() && node.ply < MAX_PLY && node.remaining > 0 {
        let m = ordering::nth_pick(node.moves, node.keys, p.tried);
        if model::hopeless(node, p.best, m) {
            lemma_unstoppable_skirmishes(
                task,
                answers,
                mind,
                node,
                Progress { tried: p.tried + 1, ..p },
            );
        } else {
            let child = rules::after(node.position, m);
            let remaining = (node.remaining - 1) as nat;
            lemma_unstoppable_quiescence(
                task,
                answers,
                mind,
                child,
                node.ply + 1,
                remaining,
                p.alpha,
                p.beta,
            );
            law_quiescence_leaves_things_in_order(
                task,
                answers,
                mind,
                child,
                node.ply + 1,
                remaining,
                p.alpha,
                p.beta,
            );
            let (after, score) = model::quiescence(
                task,
                answers,
                mind,
                child,
                node.ply + 1,
                remaining,
                p.alpha,
                p.beta,
            );
            lemma_unstoppable_skirmishes(task, answers, after, node, model::fought(node, p, score));
        }
    }
}

/// A search goes no deeper than it should, and reports once on each depth that it
/// completes, in order.
pub proof fn law_one_report_for_each_depth(
    task: Task,
    answers: Answers,
    mind: Mind,
    position: Position,
    s: Standing,
    max_depth: nat,
    reports: Seq<Report>,
)
    requires
        s.depth <= max_depth,
    ensures
        ({
            let (after, end, reported) = model::searched(
                task,
                answers,
                mind,
                position,
                s,
                max_depth,
                reports,
            );
            &&& s.depth <= end.depth <= max_depth
            &&& reported.len() == reports.len() + (end.depth - s.depth)
            &&& reported.take(reports.len() as int) == reports
            &&& forall|i: int|
                reports.len() <= i < reported.len() ==> (#[trigger] reported[i]).depth == s.depth
                    + 1 + (i - reports.len())
        }),
    decreases max_depth - s.depth,
{
    assert(reports.take(reports.len() as int) =~= reports);
    if !s.finished && s.depth < max_depth {
        let (after, next, report) = model::deepened(task, answers, mind, position, s);
        if next.depth > s.depth {
            let more = reports.push(report->0);
            law_one_report_for_each_depth(task, answers, after, position, next, max_depth, more);
            let (last, end, reported) = model::searched(
                task,
                answers,
                after,
                position,
                next,
                max_depth,
                more,
            );
            assert(reported.take(reports.len() as int) =~= reports) by {
                assert forall|i: int| 0 <= i < reports.len() implies reported[i] == reports[i] by {
                    assert(reported.take(more.len() as int)[i] == more[i]);
                }
            }
            assert(reported[reports.len() as int] == report->0) by {
                assert(reported.take(more.len() as int)[reports.len() as int]
                    == more[reports.len() as int]);
            }
        }
    }
}

/// A game that is over is worth its result: a draw by rule or stalemate what a
/// draw is worth, a checkmate what that is worth at its distance.
pub proof fn law_a_finished_game_is_worth_its_result(
    task: Task,
    answers: Answers,
    mind: Mind,
    position: Position,
    depth: i32,
    ply: nat,
    alpha: int,
    beta: int,
)
    requires
        !model::consulted(task, answers, mind.without_line(ply)).aborted,
    ensures
        model::drawn(position, mind.path) || (rules::legal(position).len() == 0
            && !position.in_check()) ==> model::visit(
            task,
            answers,
            mind,
            position,
            depth,
            ply,
            alpha,
            beta,
        ).1 == score::draw_value(task.factor, task.options),
        !model::drawn(position, mind.path) && rules::legal(position).len() == 0
            && position.in_check() ==> model::visit(
            task,
            answers,
            mind,
            position,
            depth,
            ply,
            alpha,
            beta,
        ).1 == score::mate_value(task.factor, task.victim, position.turn, ply as int),
{
    reveal(model::visit);
}

/// Nobody has to trade: out of check, a position is worth at least what it is
/// worth as it stands to a player who wants more, and at most that to one who
/// wants less.
pub proof fn law_nobody_has_to_trade(
    task: Task,
    answers: Answers,
    mind: Mind,
    position: Position,
    ply: nat,
    remaining: nat,
    alpha: int,
    beta: int,
)
    requires
        !model::consulted(task, answers, mind).aborted,
        !position.in_check(),
        position.halfmoves < 100,
        !position.is_dead(),
    ensures
        ({
            let value = model::quiescence(
                task,
                answers,
                mind,
                position,
                ply,
                remaining,
                alpha,
                beta,
            ).1;
            let leaf = score::leaf_value(task.factor, task.victim, task.options, position);
            if model::maximizing(task, position.turn) {
                value >= leaf
            } else {
                value <= leaf
            }
        }),
{
    reveal(model::quiescence);
    reveal(model::skirmishes);
    let counted = model::consulted(task, answers, mind).counting(ply);
    let maximizing = model::maximizing(task, position.turn);
    let leaf = score::leaf_value(task.factor, task.victim, task.options, position);
    lemma_skirmishes_improve(
        task,
        answers,
        counted,
        model::skirmish_at(
            task,
            position,
            ply,
            remaining,
            ordering::loud(position),
            false,
            leaf,
        ),
        model::standing(maximizing, alpha, beta, leaf),
    );
}

pub(crate) proof fn lemma_skirmishes_improve(
    task: Task,
    answers: Answers,
    mind: Mind,
    node: Skirmish,
    p: Progress,
)
    ensures
        node.maximizing ==> model::skirmishes(task, answers, mind, node, p).1 >= p.best,
        !node.maximizing ==> model::skirmishes(task, answers, mind, node, p).1 <= p.best,
    decreases node.moves.len() - p.tried,
{
    reveal(model::quiescence);
    reveal(model::skirmishes);
    if !p.done && p.tried < node.moves.len() && node.ply < MAX_PLY && node.remaining > 0 {
        let m = ordering::nth_pick(node.moves, node.keys, p.tried);
        if model::hopeless(node, p.best, m) {
            lemma_skirmishes_improve(
                task,
                answers,
                mind,
                node,
                Progress { tried: p.tried + 1, ..p },
            );
        } else {
            let (after, score) = model::quiescence(
                task,
                answers,
                mind,
                rules::after(node.position, m),
                node.ply + 1,
                (node.remaining - 1) as nat,
                p.alpha,
                p.beta,
            );
            if !after.aborted {
                lemma_skirmishes_improve(
                    task,
                    answers,
                    after,
                    node,
                    model::fought(node, p, score),
                );
            }
        }
    }
}

/// A pass over the root moves never takes back a node.
proof fn lemma_pass_counts(
    task: Task,
    answers: Answers,
    mind: Mind,
    position: Position,
    depth: nat,
    r: Round,
)
    ensures
        mind.nodes <= model::pass(task, answers, mind, position, depth, r).0.nodes,
    decreases r.roots.len() - r.tried,
{
    if r.tried < r.roots.len() {
        let m = r.roots[r.tried as int].m;
        let counted = model::ply_depth(depth);
        lemma_attempt_keeps(
            task,
            answers,
            mind,
            position,
            m,
            counted,
            0,
            r.alpha,
            INFINITY as int,
        );
        let (after, score) = model::attempt(
            task,
            answers,
            mind,
            position,
            m,
            counted,
            0,
            r.alpha,
            INFINITY as int,
        );
        if !after.aborted {
            lemma_pass_counts(
                task,
                answers,
                Mind { can_abort: true, ..after },
                position,
                depth,
                model::tallied(r, score, after.pv[1]),
            );
        }
    }
}

/// Whether the node count never decreases from one report to the next, and only
/// the last report is of a mate.
pub open spec fn orderly(reports: Seq<Report>) -> bool {
    &&& forall|i: int, j: int|
        0 <= i <= j < reports.len() ==> (#[trigger] reports[i]).nodes <= (
        #[trigger] reports[j]).nodes
    &&& forall|i: int| 0 <= i < reports.len() - 1 ==> (#[trigger] reports[i]).score is Centipawns
}

/// Whether a report says where a search stands.
pub open spec fn carries(report: Report, s: Standing, factor: int) -> bool {
    &&& report.depth == s.depth
    &&& report.sabotage == s.sabotage
    &&& report.line == s.line
    &&& report.score == score::shown(factor, score::oriented(factor, s.sabotage))
}

/// Whether what was reported so far fits where a search stands and what it has
/// counted.
pub open spec fn up_to_date(
    reports: Seq<Report>,
    s: Standing,
    nodes: u64,
    factor: int,
) -> bool {
    &&& orderly(reports)
    &&& reports.len() > 0 ==> {
        &&& carries(reports.last(), s, factor)
        &&& reports.last().nodes <= nodes
        &&& reports.last().score is Mate ==> s.finished
    }
}

/// The reports stay up to date as a search goes on.
proof fn lemma_reports_stay_up_to_date(
    task: Task,
    answers: Answers,
    mind: Mind,
    position: Position,
    s: Standing,
    max_depth: nat,
    reports: Seq<Report>,
)
    requires
        up_to_date(reports, s, mind.nodes, task.factor),
    ensures
        ({
            let (after, end, reported) = model::searched(
                task,
                answers,
                mind,
                position,
                s,
                max_depth,
                reports,
            );
            up_to_date(reported, end, after.nodes, task.factor)
        }),
    decreases max_depth - s.depth,
{
    if !s.finished && s.depth < max_depth {
        let (after, next, report) = model::deepened(task, answers, mind, position, s);
        lemma_pass_counts(
            task,
            answers,
            Mind { seldepth: 0, ..mind },
            position,
            s.depth + 1,
            model::unplayed(s.roots),
        );
        if next.depth > s.depth {
            let more = reports.push(report->0);
            assert(up_to_date(more, next, after.nodes, task.factor)) by {
                assert forall|i: int| 0 <= i < more.len() - 1 implies (
                #[trigger] more[i]).score is Centipawns by {
                    assert(more[i] == reports[i]);
                    if i == reports.len() - 1 {
                        assert(reports.last() == reports[i]);
                    }
                }
                assert forall|i: int, j: int| 0 <= i <= j < more.len() implies (
                #[trigger] more[i]).nodes <= (#[trigger] more[j]).nodes by {
                    if j < reports.len() {
                        assert(reports[i].nodes <= reports[j].nodes);
                    } else if i < reports.len() {
                        assert(reports[i].nodes <= reports[reports.len() - 1].nodes);
                        assert(reports.last() == reports[reports.len() - 1]);
                    }
                }
            }
            lemma_reports_stay_up_to_date(
                task,
                answers,
                after,
                position,
                next,
                max_depth,
                more,
            );
        }
    }
}

/// The last report of a search carries its result: the depth, the sabotage, the
/// score and the line. Only the last report may be of a mate, the node count never
/// decreases, and without a report no depth was completed.
pub proof fn law_the_last_report_carries_the_result(
    task: Task,
    answers: Answers,
    mind: Mind,
    position: Position,
    wanted: Seq<Move>,
    max_depth: nat,
)
    ensures
        ({
            let (after, end, reported) = model::searched(
                task,
                answers,
                mind,
                position,
                model::before_searching(position, wanted),
                max_depth,
                seq![],
            );
            &&& orderly(reported)
            &&& reported.len() > 0 ==> carries(reported.last(), end, task.factor)
                && reported.last().nodes <= after.nodes
            &&& reported.len() == 0 ==> end.depth == 0
        }),
{
    let first = model::before_searching(position, wanted);
    lemma_reports_stay_up_to_date(task, answers, mind, position, first, max_depth, seq![]);
    law_one_report_for_each_depth(task, answers, mind, position, first, max_depth, seq![]);
}

} // verus!
