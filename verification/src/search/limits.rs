//! When a search should stop.

use vstd::prelude::*;

use crate::chess;
use crate::chess::{Color, Move};
use crate::clock::{Duration, MILLISECOND};

verus! {

/// When the search should stop.
#[derive(Clone, Debug, PartialEq, Eq)]
pub struct Limits {
    /// Stop after this many plies of iterative deepening.
    pub depth: Option<u32>,
    /// Stop after roughly this many nodes.
    pub nodes: Option<u64>,
    /// Spend exactly this long.
    pub movetime: Option<Duration>,
    /// Time left on white's clock.
    pub white_time: Option<Duration>,
    /// Time left on black's clock.
    pub black_time: Option<Duration>,
    /// White's increment per move.
    pub white_increment: Option<Duration>,
    /// Black's increment per move.
    pub black_increment: Option<Duration>,
    /// Moves left until the next time control.
    pub moves_to_go: Option<u32>,
    /// Search until told to stop.
    pub infinite: bool,
    /// If non-empty, consider only these moves at the root. This is UCI's
    /// `searchmoves`, which a client uses to ask about a specific candidate.
    pub search_moves: Vec<Move>,
    /// Slack subtracted from the clock to cover the trip through the GUI.
    pub move_overhead: Duration,
}

/// A budget less the overhead, but never less than a millisecond.
pub open spec fn less_overhead(budget: nat, overhead: nat) -> nat {
    chess::larger(budget - overhead, MILLISECOND as int) as nat
}

/// A span in nanoseconds, where there is one.
pub open spec fn span_of(span: Option<Duration>) -> Option<nat> {
    match span {
        Some(span) => Some(span.total()),
        None => None,
    }
}

impl Limits {
    /// Limits that limit nothing.
    pub open spec fn is_blank(self) -> bool {
        &&& self.depth is None
        &&& self.nodes is None
        &&& self.movetime is None
        &&& self.untimed()
        &&& self.white_increment is None
        &&& self.black_increment is None
        &&& self.moves_to_go is None
        &&& !self.infinite
        &&& self.search_moves@.len() == 0
        &&& self.move_overhead.total() == 0
    }

    /// Neither clock is ticking.
    pub open spec fn untimed(self) -> bool {
        self.white_time is None && self.black_time is None
    }

    /// Only a depth bounds the search.
    pub open spec fn depth_alone(self) -> bool {
        !self.infinite && self.depth is Some && self.nodes is None && self.movetime is None
            && self.untimed()
    }

    /// Nothing bounds the search.
    pub open spec fn boundless(self) -> bool {
        !self.infinite && self.depth is None && self.nodes is None && self.movetime is None
            && self.untimed()
    }

    /// The time left to a player.
    pub open spec fn time_left(self, turn: Color) -> Option<Duration> {
        match turn {
            Color::White => self.white_time,
            Color::Black => self.black_time,
        }
    }

    /// What a player's clock gains with each move, in nanoseconds.
    pub open spec fn gained(self, turn: Color) -> nat {
        let increment = match turn {
            Color::White => self.white_increment,
            Color::Black => self.black_increment,
        };
        match increment {
            Some(increment) => increment.total(),
            None => 0,
        }
    }

    /// How many moves the time has to last for.
    pub open spec fn moves_left(self) -> nat {
        match self.moves_to_go {
            Some(moves) => if moves == 0 {
                1
            } else {
                moves as nat
            },
            None => 30,
        }
    }

    /// How long the search may run, in nanoseconds: exactly the fixed time where
    /// one is given, else a fair share of the clock and three quarters of the
    /// increment, up to two fifths of the clock, less the overhead. It is never
    /// less than a millisecond.
    pub open spec fn allowance(self, turn: Color) -> Option<nat> {
        if self.infinite {
            None
        } else if let Some(movetime) = self.movetime {
            Some(less_overhead(movetime.total(), 0))
        } else if let Some(left) = self.time_left(turn) {
            let share = left.total() / self.moves_left() + self.gained(turn) * 3 / 4;
            let ceiling = left.total() * 2 / 5;
            Some(
                less_overhead(
                    chess::smaller(share as int, ceiling as int) as nat,
                    self.move_overhead.total(),
                ),
            )
        } else {
            None
        }
    }

    /// Search to a fixed depth.
    pub fn depth(depth: u32) -> (limits: Limits)
        ensures
            limits.depth == Some(depth),
            (Limits { depth: None, ..limits }).is_blank(),
    {
        let mut limits = Limits::default();
        limits.depth = Some(depth);
        limits
    }

    /// Search for a fixed wall-clock duration.
    pub fn movetime(duration: Duration) -> (limits: Limits)
        ensures
            limits.movetime == Some(duration),
            (Limits { movetime: None, ..limits }).is_blank(),
    {
        let mut limits = Limits::default();
        limits.movetime = Some(duration);
        limits
    }

    /// Search a fixed number of nodes.
    pub fn nodes(nodes: u64) -> (limits: Limits)
        ensures
            limits.nodes == Some(nodes),
            (Limits { nodes: None, ..limits }).is_blank(),
    {
        let mut limits = Limits::default();
        limits.nodes = Some(nodes);
        limits
    }

    /// Whether a depth is the only thing bounding this search, so nothing caps
    /// how long reaching it may take.
    pub fn is_depth_only(&self) -> (only: bool)
        ensures
            only == self.depth_alone(),
    {
        !self.infinite && self.depth.is_some() && self.nodes.is_none() && self.movetime.is_none()
            && self.white_time.is_none() && self.black_time.is_none()
    }

    /// Whether nothing here bounds the search, in which case it should run
    /// until it is told to stop.
    pub fn is_unbounded(&self) -> (unbounded: bool)
        ensures
            unbounded == self.boundless(),
    {
        !self.infinite && self.depth.is_none() && self.nodes.is_none() && self.movetime.is_none()
            && self.white_time.is_none() && self.black_time.is_none()
    }

    /// How long the search may run, given whose clock is ticking.
    pub fn budget(&self, turn: Color) -> (budget: Option<Duration>)
        ensures
            span_of(budget) == self.allowance(turn),
    {
        if self.infinite {
            return None;
        }
        if let Some(movetime) = self.movetime {
            // The overhead is for the clock: a fixed time that is shorter than it
            // would leave nothing to search with.
            return Some(subtract_overhead(movetime.as_nanos(), Duration::default()));
        }
        let (left, increment) = match turn {
            Color::White => (self.white_time, self.white_increment),
            Color::Black => (self.black_time, self.black_increment),
        };
        match left {
            None => None,
            Some(remaining) => {
                let remaining: u128 = remaining.as_nanos();
                let increment: u128 = match increment {
                    Some(increment) => increment.as_nanos(),
                    None => 0,
                };
                let moves: u128 = match self.moves_to_go {
                    Some(moves) => if moves == 0 {
                        1
                    } else {
                        moves as u128
                    },
                    None => 30,
                };
                proof {
                    vstd::arithmetic::div_mod::lemma_div_is_ordered_by_denominator(
                        remaining as int,
                        1,
                        moves as int,
                    );
                }
                let share: u128 = remaining / moves + increment * 3 / 4;
                let ceiling: u128 = remaining * 2 / 5;
                let budget: u128 = if share < ceiling {
                    share
                } else {
                    ceiling
                };
                Some(subtract_overhead(budget, self.move_overhead))
            },
        }
    }
}

impl Default for Limits {
    /// No limits at all.
    fn default() -> (limits: Limits)
        ensures
            limits.is_blank(),
    {
        Limits {
            depth: None,
            nodes: None,
            movetime: None,
            white_time: None,
            black_time: None,
            white_increment: None,
            black_increment: None,
            moves_to_go: None,
            infinite: false,
            search_moves: Vec::new(),
            move_overhead: Duration::default(),
        }
    }
}

/// A budget in nanoseconds less the overhead, but never less than a millisecond.
fn subtract_overhead(budget: u128, overhead: Duration) -> (left: Duration)
    requires
        budget <= Duration::longest(),
    ensures
        left.total() == less_overhead(budget as nat, overhead.total()),
{
    let overhead: u128 = overhead.as_nanos();
    let left: u128 = if budget > overhead {
        budget - overhead
    } else {
        0
    };
    if left < MILLISECOND {
        Duration::from_nanos(MILLISECOND)
    } else {
        Duration::from_nanos(left)
    }
}

/// A fixed time is spent exactly. A budget is never nothing, and what it takes
/// from a clock is at most two fifths of what is left there, or the least it can
/// be.
pub proof fn law_a_budget_leaves_time_on_the_clock(limits: Limits, turn: Color)
    ensures
        limits.movetime matches Some(time) ==> !limits.infinite && time.total() >= MILLISECOND
            ==> limits.allowance(turn) == Some(time.total()),
        limits.allowance(turn) matches Some(budget) ==> budget >= MILLISECOND,
        limits.allowance(turn) matches Some(budget) ==> limits.movetime is None ==> {
            &&& limits.time_left(turn) is Some
            &&& budget == MILLISECOND || 5 * budget <= 2 * limits.time_left(turn)->0.total()
        },
        limits.infinite ==> limits.allowance(turn) is None,
        limits.boundless() ==> limits.allowance(turn) is None,
{
}

/// Whether a player's clock is what bounds the time of a search: it shows `left`
/// nanoseconds and gains `gain` with each move, and nothing else is said about time.
pub open spec fn on_the_clock(limits: Limits, turn: Color, left: nat, gain: nat) -> bool {
    &&& !limits.infinite
    &&& limits.movetime is None
    &&& turn == Color::White ==> {
        &&& span_of(limits.white_time) == Some(left)
        &&& span_of(limits.white_increment) == Some(gain) || (limits.white_increment is None && gain
            == 0)
    }
    &&& turn == Color::Black ==> {
        &&& span_of(limits.black_time) == Some(left)
        &&& span_of(limits.black_increment) == Some(gain) || (limits.black_increment is None && gain
            == 0)
    }
}

/// With `n` moves to the time control and nothing gained, the clock is split evenly:
/// `n` such budgets use up all the time that is left but for less than `n`
/// nanoseconds. With one or two moves to go the budget is two fifths of it.
pub proof fn law_the_clock_is_split_over_the_moves_to_go(
    limits: Limits,
    turn: Color,
    left: nat,
    n: u32,
)
    requires
        on_the_clock(limits, turn, left, 0),
        limits.moves_to_go == Some(n),
        limits.move_overhead.total() == 0,
    ensures
        limits.allowance(turn) is Some,
        ({
            let budget = limits.allowance(turn)->0;
            &&& budget >= 1_000_000
            &&& n >= 3 ==> left < budget * n + n
            &&& n >= 3 && budget > 1_000_000 ==> budget * n <= left
            &&& n < 3 ==> 2 * left < 5 * budget + 5
            &&& n < 3 && budget > 1_000_000 ==> 5 * budget <= 2 * left
        }),
{
    let m: int = if n == 0 {
        1
    } else {
        n as int
    };
    let share = left as int / m;
    vstd::arithmetic::div_mod::lemma_fundamental_div_mod(left as int, m);
    vstd::arithmetic::div_mod::lemma_mod_bound(left as int, m);
    if n >= 3 {
        vstd::arithmetic::div_mod::lemma_div_is_ordered_by_denominator(left as int, 3, m);
        assert(m * share == share * m) by (nonlinear_arith);
        let budget = limits.allowance(turn)->0;
        assert(budget >= share);
        assert(share * m <= budget * m) by (nonlinear_arith)
            requires
                share <= budget,
                m >= 0,
        ;
    } else {
        if n == 2 {
            assert(share == left as int / 2);
        } else {
            assert(share == left as int);
        }
    }
}

/// The time control makes the budget: with half as many moves to go, and nothing
/// gained, a budget is twice as long, up to two fifths of the clock and as far as
/// whole nanoseconds go.
pub proof fn law_half_the_moves_double_the_budget(
    limits: Limits,
    other: Limits,
    turn: Color,
    left: nat,
    n: u32,
)
    requires
        on_the_clock(limits, turn, left, 0),
        on_the_clock(other, turn, left, 0),
        limits.move_overhead.total() == 0,
        other.move_overhead.total() == 0,
        n >= 3,
        2 * n <= u32::MAX,
        limits.moves_to_go == Some(n),
        other.moves_to_go == Some((2 * n) as u32),
        left >= 1_000_000 * (2 * n),
    ensures
        limits.allowance(turn) is Some,
        other.allowance(turn) is Some,
        0 <= limits.allowance(turn)->0 - 2 * other.allowance(turn)->0 <= 1,
{
    let m = n as int;
    let l = left as int;
    vstd::arithmetic::div_mod::lemma_div_is_ordered_by_denominator(l, 3, m);
    vstd::arithmetic::div_mod::lemma_div_is_ordered_by_denominator(l, 3, 2 * m);
    vstd::arithmetic::div_mod::lemma_fundamental_div_mod(l, m);
    vstd::arithmetic::div_mod::lemma_mod_bound(l, m);
    vstd::arithmetic::div_mod::lemma_fundamental_div_mod(l, 2 * m);
    vstd::arithmetic::div_mod::lemma_mod_bound(l, 2 * m);
    let a = l / m;
    let b = l / (2 * m);
    assert(0 <= a - 2 * b <= 1 && b >= 1_000_000) by (nonlinear_arith)
        requires
            m >= 3,
            l == m * a + l % m,
            0 <= l % m < m,
            l == (2 * m) * b + l % (2 * m),
            0 <= l % (2 * m) < 2 * m,
            l >= 1_000_000 * (2 * m),
    ;
}

/// A budget with its overhead is an even share of the clock and three quarters of
/// what is gained, or two fifths of the clock where that is less. It is never more
/// than either, and it falls short of one of them by less than two nanoseconds.
pub proof fn law_a_budget_is_a_share_and_most_of_the_increment(
    limits: Limits,
    turn: Color,
    left: nat,
    gain: nat,
    n: u32,
)
    requires
        on_the_clock(limits, turn, left, gain),
        limits.moves_to_go == Some(n),
        n > 0,
        limits.allowance(turn) is Some,
        limits.allowance(turn)->0 > 1_000_000,
    ensures
        ({
            let spent = limits.allowance(turn)->0 + limits.move_overhead.total();
            &&& 4 * n * spent <= 4 * left + 3 * n * gain
            &&& 5 * spent <= 2 * left
            &&& 4 * n * (spent + 2) > 4 * left + 3 * n * gain || 5 * (spent + 1) > 2 * left
        }),
{
    let m = n as int;
    let l = left as int;
    let g = gain as int;
    vstd::arithmetic::div_mod::lemma_fundamental_div_mod(l, m);
    vstd::arithmetic::div_mod::lemma_mod_bound(l, m);
    let a = l / m;
    let c = g * 3 / 4;
    let spent = (limits.allowance(turn)->0 + limits.move_overhead.total()) as int;
    assert(4 * m * (a + c) <= 4 * l + 3 * m * g && 4 * m * (a + c + 2) > 4 * l + 3 * m * g)
        by (nonlinear_arith)
        requires
            m > 0,
            l == m * a + l % m,
            0 <= l % m < m,
            4 * c <= 3 * g < 4 * c + 4,
    ;
    if spent == a + c {
    } else {
        assert(spent == l * 2 / 5);
        assert(spent <= a + c);
        assert(4 * m * spent <= 4 * m * (a + c)) by (nonlinear_arith)
            requires
                m > 0,
                spent <= a + c,
        ;
    }
}

/// Without a time control the clock has to last for thirty moves, and with none left
/// before it the next move is the last.
pub proof fn law_a_clock_without_a_control_lasts_thirty_moves(limits: Limits, turn: Color)
    ensures
        limits.moves_to_go is None ==> limits.allowance(turn) == (Limits {
            moves_to_go: Some(30),
            ..limits
        }).allowance(turn),
        limits.moves_to_go == Some(0u32) ==> limits.allowance(turn) == (Limits {
            moves_to_go: Some(1),
            ..limits
        }).allowance(turn),
{
}

/// The overhead comes off the clock's budget and never off a fixed time.
pub proof fn law_the_overhead_comes_off_the_clock(limits: Limits, spare: Limits, turn: Color)
    requires
        limits == (Limits { move_overhead: limits.move_overhead, ..spare }),
        spare.move_overhead.total() == 0,
    ensures
        limits.allowance(turn) is Some <==> spare.allowance(turn) is Some,
        limits.movetime is Some ==> limits.allowance(turn) == spare.allowance(turn),
        limits.movetime is None ==> (limits.allowance(turn) matches Some(budget) ==> {
            let whole = spare.allowance(turn)->0;
            if whole >= limits.move_overhead.total() + 1_000_000 {
                budget == whole - limits.move_overhead.total()
            } else {
                budget == 1_000_000
            }
        }),
{
}

/// A search is timed by the clock of the player who moves, and by nothing about the
/// other; nor do depth, nodes and moves have a say in how long it may take.
pub proof fn law_only_the_players_own_clock_counts(limits: Limits, other: Limits)
    requires
        limits.infinite == other.infinite,
        limits.movetime == other.movetime,
        limits.moves_to_go == other.moves_to_go,
        limits.move_overhead == other.move_overhead,
    ensures
        limits.white_time == other.white_time && limits.white_increment == other.white_increment
            ==> limits.allowance(Color::White) == other.allowance(Color::White),
        limits.black_time == other.black_time && limits.black_increment == other.black_increment
            ==> limits.allowance(Color::Black) == other.allowance(Color::Black),
{
}

/// What says nothing bounds nothing; and where neither nodes nor time bound a search
/// that is not meant to be endless, a depth alone does, or nothing at all.
pub proof fn law_what_bounds_a_search(limits: Limits)
    ensures
        limits.is_blank() ==> limits.boundless() && limits.search_moves@.len() == 0,
        limits.boundless() ==> limits.depth is None && limits.nodes is None && !limits.infinite,
        limits.depth_alone() ==> limits.depth is Some && limits.nodes is None && !limits.infinite,
        limits.boundless() || limits.depth_alone() ==> limits.allowance(Color::White) is None
            && limits.allowance(Color::Black) is None,
        !limits.infinite && limits.nodes is None && limits.allowance(Color::White) is None
            && limits.allowance(Color::Black) is None ==> if limits.depth is Some {
            limits.depth_alone()
        } else {
            limits.boundless()
        },
{
}

} // verus!
