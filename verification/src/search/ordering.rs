//! Which moves are looked at, and in which order.

use vstd::prelude::*;

use crate::bits;
use crate::bits::{contains, only};
use crate::chess::{Board, Color, Move, Position, Role};
use crate::eval;
use crate::eval::{attack_map, piece_value};
use crate::position;
use crate::rules;

verus! {

/// How many moves a list of the quiescence search has room for.
pub const LIST_ROOM: usize = 270;

/// What a move costs the player making it, before the square it goes to is
/// looked at: what it takes and what it promotes to are gains.
pub open spec fn price(m: Move) -> int {
    (match m.captured() {
        Some(role) => -eval::worth(role),
        None => 0,
    }) - (match m.promoted() {
        Some(role) => eval::worth(role) - eval::worth(Role::Pawn),
        None => 0,
    })
}

/// The occupied squares once a move has been made, as far as its two squares go.
pub open spec fn rearranged(board: Board, m: Move) -> u64 {
    (board.everything() ^ origin_bit(m)) | bit(m.target())
}

/// The set of one square.
pub open spec fn bit(square: u8) -> u64 {
    1u64 << (square as u64)
}

/// The set of the square that a move leaves.
pub open spec fn origin_bit(m: Move) -> u64 {
    match m.origin() {
        Some(square) => bit(square),
        None => 0,
    }
}

/// Whether another piece of the mover would take back on the square that a move
/// goes to.
pub open spec fn is_covered(position: Position, m: Move) -> bool {
    exists|s: int|
        #![trigger position.board.bears_on(
            position.turn,
            m.target() as int,
            rearranged(position.board, m),
            s,
        )]
        position.board.bears_on(
            position.turn,
            m.target() as int,
            rearranged(position.board, m),
            s,
        ) && !bits::on(origin_bit(m), s)
}

/// What a move risks by going where the opponent attacks: the piece, or a quarter
/// of it where the square is covered.
pub open spec fn stake(position: Position, m: Move) -> int {
    if !position.board.attacked(
        position.turn.opposite(),
        position.board.everything(),
        m.target() as int,
    ) {
        0
    } else if is_covered(position, m) {
        eval::worth(m.moved()) / 4
    } else {
        eval::worth(m.moved())
    }
}

/// A cost to the player to move, as an attraction to the node: costs attract
/// where the victim moves, and the opposite where the node minimises.
pub open spec fn attraction(cost: int, ours: bool, maximizing: bool) -> int {
    if ours == maximizing {
        cost
    } else {
        -cost
    }
}

/// How attractive a move is at a node, largest first.
pub open spec fn order_value(
    position: Position,
    m: Move,
    victim: Color,
    maximizing: bool,
    killers: (Option<Move>, Option<Move>),
    tt_move: Option<Move>,
) -> int {
    if tt_move == Some(m) {
        1_000_000
    } else {
        attraction(price(m) + stake(position, m), position.turn == victim, maximizing) + if killers.0
            == Some(m) || killers.1 == Some(m) {
            5_000int
        } else {
            0int
        }
    }
}

/// How attractive an exchange is in the quiescence search, largest first. Taking
/// with a big piece tends to cost the taker it.
pub open spec fn exchange_value(
    position: Position,
    m: Move,
    victim: Color,
    maximizing: bool,
) -> int {
    attraction(eval::worth(m.moved()) / 2 + price(m), position.turn == victim, maximizing)
}

/// Two elements exchanged.
pub open spec fn swapped<T>(s: Seq<T>, i: int, j: int) -> Seq<T> {
    s.update(i, s[j]).update(j, s[i])
}

/// The first of the largest keys from `from` on, among those before `end`.
pub open spec fn first_best(keys: Seq<i32>, from: int, end: int) -> int
    decreases end - from,
{
    if end <= from + 1 {
        from
    } else {
        let earlier = first_best(keys, from, end - 1);
        if keys[end - 1] > keys[earlier] {
            end - 1
        } else {
            earlier
        }
    }
}

/// The first of the smallest keys from `from` on, among those before `end`.
pub open spec fn first_worst(keys: Seq<i32>, from: int, end: int) -> int
    decreases end - from,
{
    if end <= from + 1 {
        from
    } else {
        let earlier = first_worst(keys, from, end - 1);
        if keys[end - 1] < keys[earlier] {
            end - 1
        } else {
            earlier
        }
    }
}

/// Moves and their keys after the `n` most attractive moves have been brought to
/// the front, one after the other, each in exchange for the move that stood
/// there.
pub open spec fn arranged(moves: Seq<Move>, keys: Seq<i32>, n: nat) -> (Seq<Move>, Seq<i32>)
    decreases n,
{
    if n == 0 {
        (moves, keys)
    } else {
        let (m, k) = arranged(moves, keys, (n - 1) as nat);
        let pick = first_best(k, n - 1, k.len() as int);
        (swapped(m, n - 1, pick), swapped(k, n - 1, pick))
    }
}

/// The move that is looked at after `n` others.
pub open spec fn nth_pick(moves: Seq<Move>, keys: Seq<i32>, n: nat) -> Move {
    arranged(moves, keys, n + 1).0[n as int]
}

/// The first of the largest keys is where it says, and it is the first and the
/// largest.
pub proof fn lemma_first_best(keys: Seq<i32>, from: int, end: int)
    requires
        0 <= from < end <= keys.len(),
    ensures
        from <= first_best(keys, from, end) < end,
        forall|i: int|
            from <= i < end ==> #[trigger] keys[i] <= keys[first_best(keys, from, end)],
        forall|i: int|
            from <= i < first_best(keys, from, end) ==> #[trigger] keys[i] < keys[first_best(
                keys,
                from,
                end,
            )],
    decreases end - from,
{
    if end > from + 1 {
        lemma_first_best(keys, from, end - 1);
    }
}

/// Arranging neither adds nor loses a move.
pub proof fn lemma_arranged(moves: Seq<Move>, keys: Seq<i32>, n: nat)
    requires
        n <= moves.len(),
        keys.len() == moves.len(),
    ensures
        arranged(moves, keys, n).0.len() == moves.len(),
        arranged(moves, keys, n).1.len() == moves.len(),
        forall|i: int|
            0 <= i < moves.len() ==> moves.contains(#[trigger] arranged(moves, keys, n).0[i]),
    decreases n,
{
    if n == 0 {
        assert forall|i: int| 0 <= i < moves.len() implies moves.contains(
            #[trigger] arranged(moves, keys, n).0[i],
        ) by {
            assert(arranged(moves, keys, n).0[i] == moves[i]);
        }
    } else {
        lemma_arranged(moves, keys, (n - 1) as nat);
        let (m, k) = arranged(moves, keys, (n - 1) as nat);
        lemma_first_best(k, n - 1, k.len() as int);
    }
}

/// The moves come in the order of their attraction: each of those brought to the
/// front is at least as attractive as every move behind it.
pub proof fn law_the_most_attractive_come_first(moves: Seq<Move>, keys: Seq<i32>, n: nat)
    requires
        n <= moves.len(),
        keys.len() == moves.len(),
    ensures
        forall|i: int, j: int|
            0 <= i < n && i < j < keys.len() ==> arranged(moves, keys, n).1[i] >= arranged(
                moves,
                keys,
                n,
            ).1[j],
    decreases n,
{
    if n > 0 {
        let before = (n - 1) as nat;
        law_the_most_attractive_come_first(moves, keys, before);
        lemma_arranged(moves, keys, before);
        let (m, k) = arranged(moves, keys, before);
        lemma_first_best(k, before as int, k.len() as int);
    }
}

/// The squares that the side not to move attacks.
pub fn hostile_squares(position: &Position) -> (squares: u64)
    ensures
        bits::holds_just(
            squares,
            |s: int|
                position.board.attacked(
                    position.turn.opposite(),
                    position.board.everything(),
                    s,
                ),
        ),
{
    attack_map(&position.board, position.turn.other(), position.board.occupied())
}

/// What a move takes and what it promotes to, as a cost.
fn price_of(m: Move) -> (cost: i32)
    ensures
        cost == price(m),
        -1800 <= cost <= 100,
{
    let mut cost: i32 = 0;
    if let Some(captured) = m.capture() {
        cost -= piece_value(captured);
    }
    if let Some(promoted) = m.promotion() {
        cost -= piece_value(promoted) - piece_value(Role::Pawn);
    }
    cost
}

/// What a move risks by going where it goes.
fn stake_of(position: &Position, m: Move, hostile: u64) -> (cost: i32)
    requires
        m.on_board(),
        bits::holds_just(
            hostile,
            |s: int|
                position.board.attacked(
                    position.turn.opposite(),
                    position.board.everything(),
                    s,
                ),
        ),
    ensures
        cost == stake(*position, m),
        0 <= cost <= 900,
{
    let to: u8 = m.to();
    if !contains(hostile, to) {
        return 0;
    }
    let value: i32 = piece_value(m.role());
    let from: u64 = match m.from() {
        Some(square) => only(square),
        None => 0,
    };
    let occupied: u64 = (position.board.occupied() ^ from) | only(to);
    let guards: u64 = position.board.attacks_to(to, position.turn, occupied);
    let defenders: u64 = guards & !from;
    proof {
        bits::lemma_ops(guards, !from);
        bits::lemma_not(from);
        bits::lemma_empty(defenders);
        assert(from == origin_bit(m));
        assert(occupied == rearranged(position.board, m));
        if defenders != 0 {
            let s = choose|s: int| bits::on(defenders, s);
            assert(bits::on(guards, s));
            assert(position.board.bears_on(position.turn, to as int, occupied, s));
            assert(is_covered(*position, m));
        } else if is_covered(*position, m) {
            let s = choose|s: int|
                position.board.bears_on(
                    position.turn,
                    m.target() as int,
                    rearranged(position.board, m),
                    s,
                ) && !bits::on(origin_bit(m), s);
            assert(bits::on(guards, s));
            assert(bits::on(defenders, s));
        }
    }
    if defenders != 0 {
        value / 4
    } else {
        value
    }
}

/// How attractive a move is at a node, largest first.
pub fn order_key(
    position: &Position,
    m: Move,
    hostile: u64,
    victim: Color,
    maximizing: bool,
    killers: (Option<Move>, Option<Move>),
    tt_move: Option<Move>,
) -> (key: i32)
    requires
        m.on_board(),
        bits::holds_just(
            hostile,
            |s: int|
                position.board.attacked(
                    position.turn.opposite(),
                    position.board.everything(),
                    s,
                ),
        ),
    ensures
        key == order_value(*position, m, victim, maximizing, killers, tt_move),
{
    if tt_move == Some(m) {
        return 1_000_000;
    }
    // First, how much this move costs the player making it.
    let cost: i32 = price_of(m) + stake_of(position, m, hostile);
    // Then, which way that cuts for the side we want to see lose.
    let mut key: i32 = if (position.turn == victim) == maximizing {
        cost
    } else {
        -cost
    };
    if killers.0 == Some(m) || killers.1 == Some(m) {
        key += 5_000;
    }
    key
}

/// Ordering for the quiescence search, where every move is a capture or a
/// promotion and the attack maps [`order_key`] needs are not worth building.
pub fn exchange_key(position: &Position, m: Move, victim: Color, maximizing: bool) -> (key: i32)
    ensures
        key == exchange_value(*position, m, victim, maximizing),
{
    let cost: i32 = piece_value(m.role()) / 2 + price_of(m);
    if (position.turn == victim) == maximizing {
        cost
    } else {
        -cost
    }
}

/// Brings the most attractive move from `index` on to `index`.
pub fn select(moves: &mut Vec<Move>, keys: &mut Vec<i32>, index: usize)
    requires
        index < old(moves).len(),
        old(keys).len() == old(moves).len(),
    ensures
        final(moves)@ == swapped(
            old(moves)@,
            index as int,
            first_best(old(keys)@, index as int, old(keys).len() as int),
        ),
        final(keys)@ == swapped(
            old(keys)@,
            index as int,
            first_best(old(keys)@, index as int, old(keys).len() as int),
        ),
        final(moves).len() == old(moves).len(),
        final(keys).len() == old(keys).len(),
{
    let mut pick: usize = index;
    let mut candidate: usize = index + 1;
    while candidate < keys.len()
        invariant
            index < candidate <= keys.len(),
            index <= pick < keys.len(),
            pick == first_best(keys@, index as int, candidate as int),
        decreases keys.len() - candidate,
    {
        if keys[candidate] > keys[pick] {
            pick = candidate;
        }
        candidate += 1;
    }
    let m = moves[index];
    moves[index] = moves[pick];
    moves[pick] = m;
    let key: i32 = keys[index];
    keys[index] = keys[pick];
    keys[pick] = key;
    proof {
        assert(moves@ =~= swapped(old(moves)@, index as int, pick as int));
        assert(keys@ =~= swapped(old(keys)@, index as int, pick as int));
    }
}

/// Where the least attractive move from `from` on stands.
pub fn least(keys: &Vec<i32>, from: usize) -> (pick: usize)
    requires
        from < keys.len(),
    ensures
        pick == first_worst(keys@, from as int, keys.len() as int),
        from <= pick < keys.len(),
{
    let mut pick: usize = from;
    let mut candidate: usize = from + 1;
    while candidate < keys.len()
        invariant
            from < candidate <= keys.len(),
            from <= pick < keys.len(),
            pick == first_worst(keys@, from as int, candidate as int),
        decreases keys.len() - candidate,
    {
        if keys[candidate] < keys[pick] {
            pick = candidate;
        }
        candidate += 1;
    }
    pick
}

/// Captures, and the first `n` promotions that are not among them, as far as
/// there is room.
pub open spec fn with_promotions(moves: Seq<Move>, more: Seq<Move>, n: nat) -> Seq<Move>
    decreases n,
{
    if n == 0 {
        moves
    } else {
        let so_far = with_promotions(moves, more, (n - 1) as nat);
        if !so_far.contains(more[n - 1]) && so_far.len() < LIST_ROOM {
            so_far.push(more[n - 1])
        } else {
            so_far
        }
    }
}

/// The moves that the quiescence search plays out: captures and promotions.
pub open spec fn loud(position: Position) -> Seq<Move> {
    with_promotions(
        position::captures(position),
        position::promotions(position),
        position::promotions(position).len(),
    )
}

/// Whether a move is in a list.
pub fn is_listed(moves: &Vec<Move>, m: Move) -> (listed: bool)
    ensures
        listed == moves@.contains(m),
{
    let mut index: usize = 0;
    while index < moves.len()
        invariant
            index <= moves.len(),
            forall|i: int| 0 <= i < index ==> moves@[i] != m,
        decreases moves.len() - index,
    {
        if moves[index] == m {
            return true;
        }
        index += 1;
    }
    false
}

/// The moves of a list that take something.
fn captures_among(moves: &Vec<Move>) -> (found: Vec<Move>)
    ensures
        found@ == moves@.filter(|m: Move| m.captured() is Some),
        forall|i: int| 0 <= i < found.len() ==> moves@.contains(#[trigger] found@[i]),
{
    let mut found: Vec<Move> = Vec::new();
    let ghost takes = |m: Move| m.captured() is Some;
    let mut index: usize = 0;
    proof {
        assert(moves@.take(0).filter(takes) =~= Seq::<Move>::empty()) by {
            reveal(Seq::filter);
        }
    }
    while index < moves.len()
        invariant
            index <= moves.len(),
            takes == (|m: Move| m.captured() is Some),
            found@ == moves@.take(index as int).filter(takes),
            forall|i: int| 0 <= i < found.len() ==> moves@.contains(#[trigger] found@[i]),
        decreases moves.len() - index,
    {
        proof {
            let next = moves@.take(index + 1);
            assert(next.drop_last() =~= moves@.take(index as int));
            assert(next.last() == moves@[index as int]);
            reveal(Seq::filter);
        }
        let m = moves[index];
        if m.capture().is_some() {
            found.push(m);
        }
        index += 1;
    }
    proof {
        assert(moves@.take(index as int) =~= moves@);
    }
    found
}

/// The moves of a list that promote.
fn promotions_among(moves: &Vec<Move>) -> (found: Vec<Move>)
    ensures
        found@ == moves@.filter(|m: Move| m.promoted() is Some),
        forall|i: int| 0 <= i < found.len() ==> moves@.contains(#[trigger] found@[i]),
{
    let mut found: Vec<Move> = Vec::new();
    let ghost promotes = |m: Move| m.promoted() is Some;
    let mut index: usize = 0;
    proof {
        assert(moves@.take(0).filter(promotes) =~= Seq::<Move>::empty()) by {
            reveal(Seq::filter);
        }
    }
    while index < moves.len()
        invariant
            index <= moves.len(),
            promotes == (|m: Move| m.promoted() is Some),
            found@ == moves@.take(index as int).filter(promotes),
            forall|i: int| 0 <= i < found.len() ==> moves@.contains(#[trigger] found@[i]),
        decreases moves.len() - index,
    {
        proof {
            let next = moves@.take(index + 1);
            assert(next.drop_last() =~= moves@.take(index as int));
            assert(next.last() == moves@[index as int]);
            reveal(Seq::filter);
        }
        let m = moves[index];
        if m.promotion().is_some() {
            found.push(m);
        }
        index += 1;
    }
    proof {
        assert(moves@.take(index as int) =~= moves@);
    }
    found
}

/// The moves that the quiescence search plays out: captures and promotions.
pub fn loud_moves(position: &Position, legal: &Vec<Move>) -> (moves: Vec<Move>)
    requires
        legal@ == rules::legal(*position),
    ensures
        moves@ == loud(*position),
        forall|i: int| 0 <= i < moves.len() ==> legal@.contains(#[trigger] moves@[i]),
{
    let mut moves = captures_among(legal);
    let more = promotions_among(legal);
    let mut index: usize = 0;
    while index < more.len()
        invariant
            index <= more.len(),
            more@ == position::promotions(*position),
            moves@ == with_promotions(
                position::captures(*position),
                position::promotions(*position),
                index as nat,
            ),
            forall|i: int| 0 <= i < more.len() ==> legal@.contains(#[trigger] more@[i]),
            forall|i: int| 0 <= i < moves.len() ==> legal@.contains(#[trigger] moves@[i]),
        decreases more.len() - index,
    {
        let m = more[index];
        if !is_listed(&moves, m) && moves.len() < LIST_ROOM {
            moves.push(m);
        }
        index += 1;
    }
    moves
}

/// A move at the root, with the score it came back with.
#[derive(Clone, Copy, PartialEq, Eq, Debug, Structural)]
pub struct RootMove {
    pub m: Move,
    pub score: i32,
}

/// How many at the front of a list score at least `score`.
pub open spec fn place(roots: Seq<RootMove>, score: i32) -> nat
    decreases roots.len(),
{
    if roots.len() == 0 || roots[0].score < score {
        0
    } else {
        1 + place(roots.drop_first(), score)
    }
}

/// The first `n` root moves, best first, and among equals in the order in which
/// they were.
pub open spec fn ranked(roots: Seq<RootMove>, n: nat) -> Seq<RootMove>
    decreases n,
{
    if n == 0 {
        seq![]
    } else {
        let others = ranked(roots, (n - 1) as nat);
        let root = roots[n - 1];
        others.insert(place(others, root.score) as int, root)
    }
}

proof fn lemma_place(roots: Seq<RootMove>, score: i32, index: int)
    requires
        0 <= index <= roots.len(),
        forall|i: int| 0 <= i < index ==> (#[trigger] roots[i]).score >= score,
        index == roots.len() || roots[index].score < score,
    ensures
        place(roots, score) == index,
    decreases roots.len(),
{
    if index > 0 {
        assert(roots[0].score >= score);
        assert forall|i: int| 0 <= i < index - 1 implies (
        #[trigger] roots.drop_first()[i]).score >= score by {
            assert(roots.drop_first()[i] == roots[i + 1]);
        }
        lemma_place(roots.drop_first(), score, index - 1);
    }
}

proof fn lemma_place_bound(roots: Seq<RootMove>, score: i32)
    ensures
        place(roots, score) <= roots.len(),
        forall|i: int| 0 <= i < place(roots, score) ==> (#[trigger] roots[i]).score >= score,
        place(roots, score) < roots.len() ==> roots[place(roots, score) as int].score < score,
    decreases roots.len(),
{
    if roots.len() > 0 && roots[0].score >= score {
        lemma_place_bound(roots.drop_first(), score);
        assert forall|i: int| 0 <= i < place(roots, score) implies (#[trigger] roots[i]).score
            >= score by {
            if i > 0 {
                assert(roots.drop_first()[i - 1] == roots[i]);
            }
        }
    }
}

/// Ranking keeps every root move and adds none.
pub proof fn lemma_ranked(roots: Seq<RootMove>, n: nat)
    requires
        n <= roots.len(),
    ensures
        ranked(roots, n).len() == n,
        forall|i: int| 0 <= i < n ==> roots.contains(#[trigger] ranked(roots, n)[i]),
    decreases n,
{
    if n > 0 {
        lemma_ranked(roots, (n - 1) as nat);
        let others = ranked(roots, (n - 1) as nat);
        let root = roots[n - 1];
        lemma_place_bound(others, root.score);
        let p = place(others, root.score) as int;
        assert forall|i: int| 0 <= i < n implies roots.contains(#[trigger] ranked(roots, n)[i]) by {
            if i < p {
                assert(ranked(roots, n)[i] == others[i]);
            } else if i == p {
                assert(ranked(roots, n)[i] == roots[n - 1]);
            } else {
                assert(ranked(roots, n)[i] == others[i - 1]);
            }
        }
    }
}

/// Ranking puts the best first.
pub proof fn law_ranking_puts_the_best_first(roots: Seq<RootMove>, n: nat)
    requires
        n <= roots.len(),
    ensures
        ranked(roots, n).len() == n,
        forall|i: int, j: int|
            0 <= i < j < n ==> ranked(roots, n)[i].score >= ranked(roots, n)[j].score,
        ranked(roots, n).to_multiset() =~= roots.take(n as int).to_multiset(),
    decreases n,
{
    if n == 0 {
        assert(roots.take(0) =~= ranked(roots, 0));
    } else {
        let before = (n - 1) as nat;
        law_ranking_puts_the_best_first(roots, before);
        let others = ranked(roots, before);
        let root = roots[n - 1];
        lemma_place_bound(others, root.score);
        let p = place(others, root.score) as int;
        let all = ranked(roots, n);
        assert forall|i: int, j: int| 0 <= i < j < n implies all[i].score >= all[j].score by {
            if p < others.len() {
                assert(forall|k: int| p <= k < others.len() ==> others[k].score < root.score);
            }
        }
        all.to_multiset_ensures();
        assert(all.remove(p) =~= others);
        assert(all[p] == root);
        assert(all.contains(root));
        assert(all.to_multiset() =~= others.to_multiset().insert(root));
        roots.take(before as int).to_multiset_ensures();
        assert(roots.take(n as int) =~= roots.take(before as int).push(root));
    }
}

/// Best first, so the next iteration prunes and beams well. Equals stay in the
/// order in which they were.
pub fn rank(roots: &Vec<RootMove>) -> (best_first: Vec<RootMove>)
    ensures
        best_first@ == ranked(roots@, roots@.len()),
        best_first.len() == roots.len(),
        forall|i: int| 0 <= i < best_first.len() ==> roots@.contains(#[trigger] best_first@[i]),
{
    let mut best_first: Vec<RootMove> = Vec::new();
    let mut n: usize = 0;
    while n < roots.len()
        invariant
            n <= roots.len(),
            best_first.len() == n,
            best_first@ == ranked(roots@, n as nat),
        decreases roots.len() - n,
    {
        let root = roots[n];
        let mut index: usize = 0;
        while index < best_first.len() && best_first[index].score >= root.score
            invariant
                index <= best_first.len(),
                forall|i: int| 0 <= i < index ==> (#[trigger] best_first@[i]).score >= root.score,
            decreases best_first.len() - index,
        {
            index += 1;
        }
        proof {
            lemma_place(best_first@, root.score, index as int);
        }
        best_first.insert(index, root);
        n += 1;
    }
    proof {
        lemma_ranked(roots@, n as nat);
    }
    best_first
}

proof fn lemma_filtered(moves: Seq<Move>, fits: spec_fn(Move) -> bool, m: Move)
    ensures
        moves.filter(fits).contains(m) <==> moves.contains(m) && fits(m),
        moves.filter(fits).len() <= moves.len(),
    decreases moves.len(),
{
    reveal(Seq::filter);
    if moves.len() > 0 {
        let before = moves.drop_last();
        lemma_filtered(before, fits, m);
        if moves.contains(m) {
            let i = choose|i: int| 0 <= i < moves.len() && moves[i] == m;
            if i < before.len() {
                assert(before[i] == m);
            }
        }
        if before.contains(m) {
            let i = choose|i: int| 0 <= i < before.len() && before[i] == m;
            assert(moves[i] == m);
        }
        let kept = before.filter(fits);
        if fits(moves.last()) {
            assert(moves.filter(fits) == kept.push(moves.last()));
            assert(kept.push(moves.last()).last() == moves.last());
            if kept.contains(m) {
                let i = choose|i: int| 0 <= i < kept.len() && kept[i] == m;
                assert(kept.push(moves.last())[i] == m);
            }
            if kept.push(moves.last()).contains(m) {
                let i = choose|i: int|
                    0 <= i < kept.push(moves.last()).len() && kept.push(moves.last())[i] == m;
                if i < kept.len() {
                    assert(kept[i] == m);
                } else {
                    assert(m == moves.last());
                }
            }
            if m == moves.last() {
                assert(moves[moves.len() - 1] == m);
                assert(kept.push(moves.last())[kept.len() as int] == m);
            }
        }
    }
}

proof fn lemma_with_promotions(moves: Seq<Move>, more: Seq<Move>, n: nat, m: Move)
    requires
        n <= more.len(),
    ensures
        with_promotions(moves, more, n).contains(m) ==> moves.contains(m) || more.contains(m),
        moves.contains(m) ==> with_promotions(moves, more, n).contains(m),
        with_promotions(moves, more, n).len() <= moves.len() + n,
        moves.len() + more.len() <= LIST_ROOM ==> forall|i: int|
            0 <= i < n ==> with_promotions(moves, more, n).contains(#[trigger] more[i]),
    decreases n,
{
    if n > 0 {
        lemma_with_promotions(moves, more, (n - 1) as nat, m);
        let so_far = with_promotions(moves, more, (n - 1) as nat);
        let now = with_promotions(moves, more, n);
        let last = more[n - 1];
        if now == so_far.push(last) {
            assert forall|x: Move| so_far.contains(x) implies now.contains(x) by {
                let i = choose|i: int| 0 <= i < so_far.len() && so_far[i] == x;
                assert(now[i] == x);
            }
            assert(now[so_far.len() as int] == last);
            if now.contains(m) {
                let i = choose|i: int| 0 <= i < now.len() && now[i] == m;
                if i < so_far.len() {
                    assert(so_far[i] == m);
                }
            }
        }
        assert(more.contains(last));
        if moves.len() + more.len() <= LIST_ROOM {
            assert forall|i: int| 0 <= i < n implies now.contains(#[trigger] more[i]) by {
                if i < n - 1 {
                    assert(so_far.contains(more[i]));
                }
            }
        }
    }
}

/// What the quiescence search plays out are legal moves that take or promote: all of
/// them, as far as a list has room.
pub proof fn law_the_loud_moves_take_or_promote(position: Position)
    ensures
        forall|m: Move| #[trigger]
            loud(position).contains(m) ==> rules::legal(position).contains(m) && (m.captured()
                is Some || m.promoted() is Some),
        forall|m: Move|
            #![trigger loud(position).contains(m)]
            rules::legal(position).contains(m) && m.captured() is Some ==> loud(position).contains(
                m,
            ),
        2 * rules::legal(position).len() <= 270 ==> forall|m: Move|
            #![trigger loud(position).contains(m)]
            rules::legal(position).contains(m) && m.promoted() is Some ==> loud(position).contains(
                m,
            ),
{
    let takes = |m: Move| m.captured() is Some;
    let promotes = |m: Move| m.promoted() is Some;
    let captures = position::captures(position);
    let promotions = position::promotions(position);
    assert forall|m: Move|
        #![trigger loud(position).contains(m)]
        {
            &&& loud(position).contains(m) ==> rules::legal(position).contains(m) && (m.captured()
                is Some || m.promoted() is Some)
            &&& rules::legal(position).contains(m) && m.captured() is Some ==> loud(
                position,
            ).contains(m)
            &&& 2 * rules::legal(position).len() <= 270 && rules::legal(position).contains(m)
                && m.promoted() is Some ==> loud(position).contains(m)
        } by {
        lemma_filtered(rules::legal(position), takes, m);
        lemma_filtered(rules::legal(position), promotes, m);
        lemma_with_promotions(captures, promotions, promotions.len(), m);
        if promotions.contains(m) {
            let i = choose|i: int| 0 <= i < promotions.len() && promotions[i] == m;
            assert(promotions[i] == m);
        }
    }
}

/// What a move gains the player who makes it: what it takes, and what a pawn becomes
/// more than it was.
pub open spec fn spoils(m: Move) -> int {
    (match m.captured() {
        Some(role) => eval::laws::price(role),
        None => 0,
    }) + (match m.promoted() {
        Some(role) => eval::laws::price(role) - 100,
        None => 0,
    })
}

/// Where the victim moves and wants the score to go up, a move is the more attractive
/// the more it costs: less what it gains, and more by the whole of a piece that it
/// leaves to be taken, or by a quarter of one that is covered.
pub proof fn law_costly_moves_attract_the_victim(position: Position, m: Move)
    ensures
        ({
            let value = order_value(position, m, position.turn, true, (None, None), None);
            let hit = position.board.attacked(
                position.turn.opposite(),
                position.board.everything(),
                m.target() as int,
            );
            let piece = eval::laws::price(m.moved());
            &&& !hit ==> value == -spoils(m)
            &&& hit && !is_covered(position, m) ==> value == piece - spoils(m)
            &&& hit && is_covered(position, m) ==> 4 * (value + spoils(m)) <= piece < 4 * (value
                + spoils(m)) + 4
        }),
{
}

/// What attracts the one who wants the score up repels the one who wants it down, and
/// what costs the victim profits the other. A move that refuted something before is
/// 5000 more attractive, and the move that the table suggests comes before all others.
pub proof fn law_attraction_takes_sides(
    position: Position,
    m: Move,
    other: Move,
    up: bool,
    killers: (Option<Move>, Option<Move>),
    tt_move: Option<Move>,
)
    ensures
        ({
            let turn = position.turn;
            let plain = order_value(position, m, turn, up, (None, None), None);
            &&& order_value(position, m, turn, !up, (None, None), None) == -plain
            &&& order_value(position, m, turn.opposite(), up, (None, None), None) == -plain
            &&& order_value(position, m, turn, up, killers, None) == plain + (if killers.0 == Some(
                m,
            ) || killers.1 == Some(m) {
                5_000int
            } else {
                0int
            })
            &&& tt_move == Some(m) && other != m ==> order_value(
                position,
                m,
                turn,
                up,
                killers,
                tt_move,
            ) > order_value(position, other, turn, up, killers, tt_move)
            &&& tt_move != Some(m) ==> order_value(position, m, turn, up, killers, tt_move)
                == order_value(position, m, turn, up, killers, None)
        }),
{
}

/// In the quiescence search an exchange attracts the victim by half of what moves, less
/// what it gains; and it takes sides in the same way.
pub proof fn law_exchanges_take_sides(position: Position, m: Move, up: bool)
    ensures
        ({
            let turn = position.turn;
            let value = exchange_value(position, m, turn, true);
            &&& 2 * (value + spoils(m)) == eval::laws::price(m.moved())
            &&& exchange_value(position, m, turn, !up) == -exchange_value(position, m, turn, up)
            &&& exchange_value(position, m, turn.opposite(), up) == -exchange_value(
                position,
                m,
                turn,
                up,
            )
        }),
{
}

proof fn lemma_xor(a: u64, b: u64, s: int)
    ensures
        bits::on(a ^ b, s) <==> bits::on(a, s) != bits::on(b, s),
{
    if 0 <= s < 64 {
        let k = s as u64;
        assert(((a ^ b) >> k) & 1 == 1 <==> ((a >> k) & 1 == 1) != ((b >> k) & 1 == 1))
            by (bit_vector);
    }
}

proof fn lemma_bit(square: u8, s: int)
    requires
        square < 64,
    ensures
        bits::on(bit(square), s) <==> s == square,
{
    if 0 <= s < 64 {
        let k = square as u64;
        let j = s as u64;
        assert(((1u64 << k) >> j) & 1 == 1 <==> j == k) by (bit_vector)
            requires
                k < 64,
                j < 64,
        ;
    }
}

/// After a move the square that it leaves is empty and the one that it goes to is not;
/// the rest of the board is as it was. A square is covered where, so seen, another
/// piece of the mover bears on it.
pub proof fn law_a_covered_square_is_seen_after_the_move(position: Position, m: Move, s: int)
    requires
        m.on_board(),
        m.origin() matches Some(from) ==> position.board.taken(from as int),
    ensures
        bits::on(rearranged(position.board, m), s) <==> s == m.target() || (position.board.taken(s)
            && m.origin() != Some(s as u8)),
        position.board.bears_on(
            position.turn,
            m.target() as int,
            rearranged(position.board, m),
            s,
        ) && m.origin() != Some(s as u8) ==> is_covered(position, m),
        is_covered(position, m) ==> exists|t: int|
            m.origin() != Some(t as u8) && #[trigger] position.board.bears_on(
                position.turn,
                m.target() as int,
                rearranged(position.board, m),
                t,
            ),
{
    let board = position.board;
    let all = board.everything();
    let from = origin_bit(m);
    bits::lemma_ops(board.white, board.black);
    bits::lemma_ops(all ^ from, bit(m.target()));
    lemma_xor(all, from, s);
    lemma_bit(m.target(), s);
    bits::lemma_empty(0);
    if let Some(square) = m.origin() {
        lemma_bit(square, s);
    }
    if position.board.bears_on(
        position.turn,
        m.target() as int,
        rearranged(position.board, m),
        s,
    ) && m.origin() != Some(s as u8) {
        assert(0 <= s < 64);
        assert(!bits::on(from, s));
    }
    if is_covered(position, m) {
        let t = choose|t: int|
            position.board.bears_on(
                position.turn,
                m.target() as int,
                rearranged(position.board, m),
                t,
            ) && !bits::on(origin_bit(m), t);
        if let Some(square) = m.origin() {
            lemma_bit(square, t);
        }
        assert(m.origin() != Some(t as u8));
    }
}

/// Whether a move stands in a list beside a key.
pub open spec fn has_key(moves: Seq<Move>, keys: Seq<i32>, m: Move, key: i32) -> bool {
    exists|j: int| 0 <= j < moves.len() && #[trigger] moves[j] == m && keys[j] == key
}

/// Arranging moves keeps each with its key, and neither adds nor loses one.
pub proof fn law_moves_keep_their_keys(moves: Seq<Move>, keys: Seq<i32>, n: nat)
    requires
        n <= moves.len(),
        keys.len() == moves.len(),
    ensures
        arranged(moves, keys, n).0.len() == moves.len(),
        arranged(moves, keys, n).1.len() == keys.len(),
        arranged(moves, keys, n).0.to_multiset() == moves.to_multiset(),
        forall|i: int|
            0 <= i < moves.len() ==> has_key(
                moves,
                keys,
                #[trigger] arranged(moves, keys, n).0[i],
                arranged(moves, keys, n).1[i],
            ),
    decreases n,
{
    let (m, k) = arranged(moves, keys, n);
    if n == 0 {
        assert forall|i: int| 0 <= i < moves.len() implies has_key(
            moves,
            keys,
            #[trigger] m[i],
            k[i],
        ) by {
            assert(moves[i] == m[i] && keys[i] == k[i]);
        }
    } else {
        law_moves_keep_their_keys(moves, keys, (n - 1) as nat);
        let (m0, k0) = arranged(moves, keys, (n - 1) as nat);
        let pick = first_best(k0, n - 1, k0.len() as int);
        lemma_first_best(k0, n - 1, k0.len() as int);
        lemma_swapped(m0, n - 1, pick);
        assert forall|i: int| 0 <= i < moves.len() implies has_key(
            moves,
            keys,
            #[trigger] m[i],
            k[i],
        ) by {
            let source = if i == n - 1 {
                pick
            } else if i == pick {
                n - 1
            } else {
                i
            };
            assert(m[i] == m0[source] && k[i] == k0[source]);
            assert(has_key(moves, keys, m0[source], k0[source]));
        }
    }
}

proof fn lemma_swapped(s: Seq<Move>, i: int, j: int)
    requires
        0 <= i < s.len(),
        0 <= j < s.len(),
    ensures
        swapped(s, i, j).to_multiset() == s.to_multiset(),
{
    vstd::seq_lib::to_multiset_update(s, i, s[j]);
    let t = s.update(i, s[j]);
    vstd::seq_lib::to_multiset_update(t, j, s[i]);
    s.to_multiset_ensures();
    t.to_multiset_ensures();
    assert(s.contains(s[i]) && s.contains(s[j]));
    assert(swapped(s, i, j).to_multiset() =~= s.to_multiset());
}

/// The first move to be looked at is the first of those that attract most.
pub proof fn law_the_first_look_is_at_the_most_attractive(moves: Seq<Move>, keys: Seq<i32>)
    requires
        keys.len() == moves.len(),
        moves.len() > 0,
    ensures
        exists|j: int|
            {
                &&& 0 <= j < moves.len()
                &&& nth_pick(moves, keys, 0) == #[trigger] moves[j]
                &&& forall|i: int| 0 <= i < keys.len() ==> #[trigger] keys[i] <= keys[j]
                &&& forall|i: int| 0 <= i < j ==> #[trigger] keys[i] < keys[j]
            },
{
    let j = first_best(keys, 0, keys.len() as int);
    lemma_first_best(keys, 0, keys.len() as int);
    assert(arranged(moves, keys, 0) == (moves, keys));
    assert(arranged(moves, keys, 1).0 == swapped(moves, 0, j));
    assert(nth_pick(moves, keys, 0) == moves[j]);
}

/// The most reluctant of the moves from a place on is the first of those that attract
/// least.
pub proof fn law_the_most_reluctant_attracts_least(keys: Seq<i32>, from: int, end: int)
    requires
        0 <= from < end <= keys.len(),
    ensures
        from <= first_worst(keys, from, end) < end,
        forall|i: int|
            from <= i < end ==> #[trigger] keys[i] >= keys[first_worst(keys, from, end)],
        forall|i: int|
            from <= i < first_worst(keys, from, end) ==> #[trigger] keys[i] > keys[first_worst(
                keys,
                from,
                end,
            )],
    decreases end - from,
{
    if end > from + 1 {
        law_the_most_reluctant_attracts_least(keys, from, end - 1);
    }
}

/// Root moves that are in order stay as they are, equals among them too.
pub proof fn law_ranking_keeps_what_is_in_order(roots: Seq<RootMove>, n: nat)
    requires
        n <= roots.len(),
        forall|i: int, j: int| 0 <= i <= j < roots.len() ==> roots[i].score >= roots[j].score,
    ensures
        ranked(roots, n) == roots.take(n as int),
    decreases n,
{
    if n == 0 {
        assert(ranked(roots, 0) =~= roots.take(0));
    } else {
        law_ranking_keeps_what_is_in_order(roots, (n - 1) as nat);
        let others = roots.take(n - 1);
        lemma_place(others, roots[n - 1].score, n - 1);
        assert(others.insert(n - 1, roots[n - 1]) =~= roots.take(n as int));
    }
}

} // verus!
