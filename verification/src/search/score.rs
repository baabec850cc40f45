//! What outcomes are worth.
//!
//! Every score is *badness* for the **victim**, the side the engine is playing.
//! Being checkmated is `+MATE`; delivering checkmate is `-MATE`; a draw sits
//! just below zero, because half a point is still a point too many. Internally
//! a score is oriented so that higher is better for whatever the engine wants.

use vstd::prelude::*;

use crate::chess;
use crate::chess::{Color, Position};
use crate::eval;
use crate::eval::evaluate_with;
use crate::search::options;
use crate::search::options::{Options, SCORE_LIMIT};

verus! {

/// Deepest ply the search will visit.
pub const MAX_PLY: usize = 64;
/// Score of an immediate checkmate against the victim.
pub const MATE: i32 = 30_000;
/// Scores at least this large are mates rather than evaluations.
pub const MATE_IN_MAX_PLY: i32 = 29_872;
/// Larger than any real score.
pub const INFINITY: i32 = 32_000;

/// A score as a GUI expects to see it: positive means the engine is winning,
/// which for this engine is bad news.
#[derive(Clone, Copy, PartialEq, Eq, Debug, Structural)]
pub enum Score {
    /// An evaluation in centipawns.
    Centipawns(i32),
    /// Mate in this many moves. Negative means the engine is the one getting
    /// mated, which is the happy ending.
    Mate(i32),
}

/// The furthest from zero that a score found at a ply can be.
pub open spec fn score_range(ply: int) -> int {
    i32::MAX - ply
}

/// Whether a score found at a ply leaves room for the plies above it.
pub open spec fn within(score: int, ply: int) -> bool {
    -score_range(ply) <= score <= score_range(ply)
}

/// A badness in the engine's own orientation, and back again.
pub open spec fn oriented(factor: int, score: int) -> int {
    if factor >= 0 {
        score
    } else {
        -score
    }
}

/// What a result is worth, given how bad it is for the victim. An engine that
/// leans neither way has no opinion about results.
pub open spec fn result_value(factor: int, badness: int) -> int {
    if factor == 0 {
        0
    } else {
        oriented(factor, badness)
    }
}

/// What it is worth that a player is checkmated at a ply.
pub open spec fn mate_value(factor: int, victim: Color, mated: Color, ply: int) -> int {
    result_value(
        factor,
        if mated == victim {
            MATE - ply
        } else {
            ply - MATE
        },
    )
}

/// What a draw is worth.
pub open spec fn draw_value(factor: int, options: Options) -> int {
    result_value(factor, -options.draw_penalty)
}

/// What a position is worth as it stands.
pub open spec fn leaf_value(
    factor: int,
    victim: Color,
    options: Options,
    position: Position,
) -> int {
    eval::toward_zero(eval::evaluation(position, victim, options.weights) * factor, 100)
}

/// What a position is worth where the opponent has a chance to punish the engine
/// but does not have to take it: `best` if they do, `floor` if they play their
/// most reluctant reply. It is the floor, and a bounded amount of credit for the
/// chance, short of a mate.
pub open spec fn declinable(best: int, floor: int, bonus: int) -> int {
    if best <= floor || floor >= MATE_IN_MAX_PLY {
        floor
    } else {
        chess::smaller(
            floor + chess::smaller(best - floor, chess::larger(bonus, 0)),
            MATE_IN_MAX_PLY - 1,
        )
    }
}

/// A score as a GUI expects it: positive when the engine is winning, mate
/// distances in moves.
pub open spec fn shown(factor: int, internal: int) -> Score {
    let badness = oriented(factor, internal);
    if badness >= MATE_IN_MAX_PLY {
        Score::Mate((-eval::toward_zero(MATE - badness + 1, 2)) as i32)
    } else if badness <= -MATE_IN_MAX_PLY {
        Score::Mate(eval::toward_zero(MATE + badness + 1, 2) as i32)
    } else {
        Score::Centipawns((-badness) as i32)
    }
}

/// A score as the table keeps it: a mate's distance counts from the position
/// itself.
pub open spec fn kept(score: int, ply: int) -> int {
    if score >= MATE_IN_MAX_PLY {
        score + ply
    } else if score <= -MATE_IN_MAX_PLY {
        score - ply
    } else {
        score
    }
}

/// A score from the table as it counts at a ply: a mate's distance counts from
/// the root.
pub open spec fn recalled(score: int, ply: int) -> int {
    if score >= MATE_IN_MAX_PLY {
        score - ply
    } else if score <= -MATE_IN_MAX_PLY {
        score + ply
    } else {
        score
    }
}

/// Flip a badness score into internal orientation, and back again.
pub fn orient(factor: i32, score: i32) -> (oriented: i32)
    requires
        score > i32::MIN,
    ensures
        oriented == self::oriented(factor as int, score as int),
{
    if factor >= 0 {
        score
    } else {
        -score
    }
}

/// What a result is worth, given how bad it is for the victim.
fn value_of_result(factor: i32, badness: i32) -> (value: i32)
    requires
        badness > i32::MIN,
    ensures
        value == result_value(factor as int, badness as int),
{
    if factor == 0 {
        0
    } else {
        orient(factor, badness)
    }
}

/// What it is worth that a player is checkmated at a ply.
pub fn checkmate_score(factor: i32, victim: Color, mated: Color, ply: usize) -> (value: i32)
    requires
        ply <= MAX_PLY,
    ensures
        value == mate_value(factor as int, victim, mated, ply as int),
        within(value as int, ply as int),
{
    let distance: i32 = MATE - ply as i32;
    value_of_result(
        factor,
        if mated == victim {
            distance
        } else {
            -distance
        },
    )
}

/// What a draw is worth.
pub fn draw_score(factor: i32, options: &Options) -> (value: i32)
    requires
        options.draw_penalty > i32::MIN,
    ensures
        value == draw_value(factor as int, *options),
        options.in_range() ==> -SCORE_LIMIT <= value <= SCORE_LIMIT,
{
    value_of_result(factor, -options.draw_penalty)
}

/// Dividing by something that is at least as large as a factor undoes it.
proof fn lemma_scaled(x: int, factor: int, bound: int)
    requires
        -100 <= factor <= 100,
        -bound <= x <= bound,
    ensures
        -bound <= eval::toward_zero(x * factor, 100) <= bound,
{
    assert(-(bound * 100) <= x * factor <= bound * 100) by (nonlinear_arith)
        requires
            -100 <= factor <= 100,
            -bound <= x <= bound,
    ;
}

/// What a position is worth as it stands.
pub fn leaf_score(factor: i32, victim: Color, options: &Options, position: &Position) -> (value:
    i32)
    requires
        -100 <= factor <= 100,
        options.weights.fits(),
    ensures
        value == leaf_value(factor as int, victim, *options, *position),
        options.in_range() ==> -SCORE_LIMIT <= value <= SCORE_LIMIT,
{
    proof {
        eval::lemma_reach(*position, victim, options.weights);
    }
    let badness: i32 = evaluate_with(position, victim, &options.weights);
    proof {
        lemma_scaled(badness as int, factor as int, options.weights.reach());
        assert(-(i32::MAX * 100) <= badness * factor <= i32::MAX * 100) by (nonlinear_arith)
            requires
                -100 <= factor <= 100,
                -i32::MAX <= badness <= i32::MAX,
        ;
    }
    let scaled: i64 = badness as i64 * factor as i64;
    let value: i64 = scaled / 100;
    value as i32
}

/// What a position is worth to us when the opponent has a chance to punish us
/// but does not have to take it.
///
/// `best` is what happens if they do; `floor` is what happens if they play
/// their most reluctant reply instead. Banking on `best` is what makes an
/// engine stop trying: any position where mate is merely *available* scores
/// the same as any other, so every move looks equally good and it shuffles.
/// So the value is the floor, plus a bounded amount of credit for the
/// chance. Only a defeat the opponent cannot decline counts as a real mate.
pub fn discount_a_declinable_chance(best: i32, floor: i32, bonus: i32) -> (value: i32)
    ensures
        value == declinable(best as int, floor as int, bonus as int),
{
    if best <= floor {
        return floor;
    }
    if floor >= MATE_IN_MAX_PLY {
        // Every reply mates us. That one is in the bag.
        return floor;
    }
    let chance: i64 = best as i64 - floor as i64;
    let most: i64 = if bonus > 0 {
        bonus as i64
    } else {
        0
    };
    let credit: i64 = if chance < most {
        chance
    } else {
        most
    };
    let value: i64 = floor as i64 + credit;
    if value < MATE_IN_MAX_PLY as i64 - 1 {
        value as i32
    } else {
        MATE_IN_MAX_PLY - 1
    }
}

/// Convert an internal score into what a GUI expects: positive when the engine
/// is winning, negative when it is losing, mate distances in moves.
pub fn score_for_gui(factor: i32, internal: i32) -> (score: Score)
    requires
        -i32::MAX <= internal,
    ensures
        score == shown(factor as int, internal as int),
{
    let badness: i64 = orient(factor, internal) as i64;
    if badness >= MATE_IN_MAX_PLY as i64 {
        Score::Mate((-((MATE as i64 - badness + 1) / 2)) as i32)
    } else if badness <= -(MATE_IN_MAX_PLY as i64) {
        Score::Mate(((MATE as i64 + badness + 1) / 2) as i32)
    } else {
        Score::Centipawns((-badness) as i32)
    }
}

/// Mate scores are stored relative to the position they are about, so an entry
/// stays true wherever it is probed from.
pub fn to_table(score: i32, ply: usize) -> (stored: i32)
    requires
        ply <= MAX_PLY,
        within(score as int, ply as int),
    ensures
        stored == kept(score as int, ply as int),
        stored > i32::MIN,
{
    if score >= MATE_IN_MAX_PLY {
        score + ply as i32
    } else if score <= -MATE_IN_MAX_PLY {
        score - ply as i32
    } else {
        score
    }
}

/// What a stored score means at a ply.
pub fn from_table(score: i32, ply: usize) -> (value: i32)
    requires
        ply <= MAX_PLY,
        score > i32::MIN,
    ensures
        value == recalled(score as int, ply as int),
        within(value as int, ply as int),
{
    if score >= MATE_IN_MAX_PLY {
        score - ply as i32
    } else if score <= -MATE_IN_MAX_PLY {
        score + ply as i32
    } else {
        score
    }
}

/// Turning a score round twice gives it back.
pub proof fn law_orienting_twice_changes_nothing(factor: int, score: int)
    ensures
        oriented(factor, oriented(factor, score)) == score,
{
}

/// Defeat ranks above a draw and a draw above victory. Being mated beats any
/// position that is merely being lost, however badly; that beats a draw, which
/// beats being ahead by more than a draw costs; and delivering mate is the worst
/// of all.
pub proof fn law_defeat_ranks_above_a_draw_above_victory(
    factor: int,
    victim: Color,
    options: Options,
    ply: int,
    losing: int,
    winning: int,
)
    requires
        factor > 0,
        0 <= ply <= MAX_PLY,
        -options.draw_penalty < losing < MATE_IN_MAX_PLY,
        -MATE_IN_MAX_PLY < winning < -options.draw_penalty,
    ensures
        mate_value(factor, victim, victim, ply) > losing,
        losing > draw_value(factor, options),
        draw_value(factor, options) > winning,
        winning > mate_value(factor, victim, victim.opposite(), ply),
{
}

/// Below half malice the engine wants the opposite of everything, results
/// included.
pub proof fn law_without_malice_everything_is_reversed(
    factor: int,
    victim: Color,
    mated: Color,
    options: Options,
    position: Position,
    ply: int,
)
    ensures
        factor != 0 ==> mate_value(-factor, victim, mated, ply) == -mate_value(
            factor,
            victim,
            mated,
            ply,
        ),
        factor != 0 ==> draw_value(-factor, options) == -draw_value(factor, options),
        leaf_value(-factor, victim, options, position) == -leaf_value(
            factor,
            victim,
            options,
            position,
        ),
{
    let badness = eval::evaluation(position, victim, options.weights);
    assert(badness * (-factor) == -(badness * factor)) by (nonlinear_arith);
}

/// Half way between the two objectives the engine does not care: every result
/// and every position is worth the same.
pub proof fn law_at_half_malice_nothing_matters(
    victim: Color,
    mated: Color,
    options: Options,
    position: Position,
    ply: int,
)
    requires
        options.malice == 50,
    ensures
        mate_value(options.leaning(), victim, mated, ply) == 0,
        draw_value(options.leaning(), options) == 0,
        leaf_value(options.leaning(), victim, options, position) == 0,
{
}

/// At full malice the evaluation counts as it is, and at none it counts the
/// other way round.
pub proof fn law_malice_at_its_ends_keeps_the_evaluation(
    victim: Color,
    options: Options,
    position: Position,
)
    ensures
        options.malice >= 100 ==> leaf_value(options.leaning(), victim, options, position)
            == eval::evaluation(position, victim, options.weights),
        options.malice <= 0 ==> leaf_value(options.leaning(), victim, options, position)
            == -eval::evaluation(position, victim, options.weights),
{
    let badness = eval::evaluation(position, victim, options.weights);
    let factor = options.leaning();
    if options.malice >= 100 {
        assert(badness * factor == 100 * badness) by (nonlinear_arith)
            requires
                factor == 100,
        ;
    }
    if options.malice <= 0 {
        assert(badness * factor == -(100 * badness)) by (nonlinear_arith)
            requires
                factor == -100,
        ;
    }
}

/// A chance that can be declined is worth at least the floor and at most the
/// chance, the credit for it is bounded by the bonus, and it is a mate only
/// where the floor already is one.
pub proof fn law_credit_for_a_chance_is_bounded(best: int, floor: int, bonus: int)
    ensures
        declinable(best, floor, bonus) >= floor,
        best >= floor ==> declinable(best, floor, bonus) <= best,
        declinable(best, floor, bonus) <= floor + chess::larger(bonus, 0),
        declinable(best, floor, bonus) >= MATE_IN_MAX_PLY ==> floor >= MATE_IN_MAX_PLY,
        bonus <= 0 ==> declinable(best, floor, bonus) == floor,
{
}

/// A worse floor is never worth less, or the engine would stop trying to reach
/// one; and while the chance goes beyond what is credited, it is worth more.
pub proof fn law_a_worse_floor_is_worth_more(best: int, floor: int, worse: int, bonus: int)
    requires
        floor <= worse,
    ensures
        declinable(best, floor, bonus) <= declinable(best, worse, bonus),
        floor < worse && worse + chess::larger(bonus, 0) <= best && worse + chess::larger(bonus, 0)
            < MATE_IN_MAX_PLY ==> declinable(best, floor, bonus) < declinable(best, worse, bonus),
{
}

/// A score that is stored at a ply and recalled at the same ply is unchanged;
/// recalled elsewhere, a mate is nearer or further by the difference.
pub proof fn law_the_table_gives_back_what_it_was_given(score: int, ply: int, other: int)
    requires
        0 <= ply <= MAX_PLY,
        0 <= other <= MAX_PLY,
    ensures
        recalled(kept(score, ply), ply) == score,
        score >= MATE_IN_MAX_PLY ==> recalled(kept(score, ply), other) == score + ply - other,
        score <= -MATE_IN_MAX_PLY ==> recalled(kept(score, ply), other) == score - ply + other,
        -MATE_IN_MAX_PLY < score < MATE_IN_MAX_PLY ==> recalled(kept(score, ply), other) == score,
{
}

/// A mate of the victim is shown as a mate against the engine and a mate by the
/// victim as one for it, so many moves away; whatever else is lost or won is
/// shown with the sign turned round.
pub proof fn law_mates_are_shown_in_moves(factor: int, victim: Color, ply: int, score: int)
    requires
        factor != 0,
        0 <= ply <= 2 * MAX_PLY,
        -MATE_IN_MAX_PLY < score < MATE_IN_MAX_PLY,
    ensures
        shown(factor, mate_value(factor, victim, victim, ply)) == Score::Mate(
            (-((ply + 1) / 2)) as i32,
        ),
        shown(factor, mate_value(factor, victim, victim.opposite(), ply)) == Score::Mate(
            ((ply + 1) / 2) as i32,
        ),
        shown(factor, oriented(factor, score)) == Score::Centipawns((-score) as i32),
{
}

/// Being mated is worth the more the sooner it comes, and delivering mate the less:
/// each ply counts for one, and the two are exact opposites.
pub proof fn law_every_ply_to_a_mate_counts(factor: int, victim: Color, ply: int)
    requires
        factor > 0,
    ensures
        mate_value(factor, victim, victim, 0) == 30_000,
        mate_value(factor, victim, victim, ply) == mate_value(factor, victim, victim, ply + 1) + 1,
        mate_value(factor, victim, victim.opposite(), ply) == -mate_value(
            factor,
            victim,
            victim,
            ply,
        ),
{
}

/// A draw is as far below an equal position as its penalty says.
pub proof fn law_a_draw_costs_its_penalty(factor: int, options: Options, victim: Color)
    requires
        factor > 0,
    ensures
        draw_value(factor, options) + options.draw_penalty == 0,
        0 <= options.draw_penalty < 29_000 ==> mate_value(factor, victim, victim.opposite(), 64)
            < draw_value(factor, options) <= 0,
{
}

/// A leaning scales the evaluation as a percentage, rounded towards zero: never more
/// than it should be, short by less than one, and never on the other side of zero.
pub proof fn law_a_leaning_is_a_percentage(
    factor: int,
    victim: Color,
    options: Options,
    position: Position,
)
    ensures
        ({
            let whole = eval::evaluation(position, victim, options.weights) * factor;
            let value = leaf_value(factor, victim, options, position);
            if whole >= 0 {
                0 <= value && 100 * value <= whole < 100 * value + 100
            } else {
                value <= 0 && 100 * value - 100 < whole <= 100 * value
            }
        }),
{
}

/// A chance that can be declined is credited in full up to the bonus: where taking
/// it gains no more than that it is worth what taking it is worth, where it gains
/// more it is worth the floor and the bonus, and both end short of a mate. What is no
/// chance is worth the floor.
pub proof fn law_a_chance_is_credited_up_to_the_bonus(best: int, floor: int, bonus: int)
    requires
        bonus >= 0,
    ensures
        best <= floor ==> declinable(best, floor, bonus) == floor,
        floor >= MATE_IN_MAX_PLY ==> declinable(best, floor, bonus) == floor,
        floor <= best <= floor + bonus && best < MATE_IN_MAX_PLY ==> declinable(best, floor, bonus)
            == best,
        best >= floor + bonus && floor + bonus < MATE_IN_MAX_PLY ==> declinable(best, floor, bonus)
            == floor + bonus,
        best >= MATE_IN_MAX_PLY && floor + bonus >= MATE_IN_MAX_PLY && floor < MATE_IN_MAX_PLY
            ==> declinable(best, floor, bonus) == MATE_IN_MAX_PLY - 1,
{
}

} // verus!
