//! What each weight of the evaluation is for.
//!
//! A weight is a price: raising it by one raises or lowers the score by the number of
//! things that it pays for. The laws here count those things on the board, for the
//! victim and for the hunter, and say what each price does to the score.

use vstd::prelude::*;

use crate::bits;
use crate::chess;
use crate::chess::{Board, Color, Position, Role};
use crate::eval;
use crate::eval::{
    attacked_by, danger, evaluation, far_pawns, freedom, has_major, holding, mate_is_forcible,
    mate_is_possible, minors, minors_apart, offer, offered, ring_hits, shelter, wealth, Weights,
};

verus! {

/// How many pawns, rooks and queens a player has.
pub open spec fn heavy(board: Board, color: Color) -> int {
    holding(board, Role::Pawn, color) + holding(board, Role::Rook, color) + holding(
        board,
        Role::Queen,
        color,
    )
}

/// How many squares a player holds with a bishop or a knight.
pub open spec fn light(board: Board, color: Color) -> int {
    bits::tally(
        |s: int|
            bits::on(board.side(color), s) && (bits::on(board.knights, s) || bits::on(
                board.bishops,
                s,
            )),
    ) as int
}

/// Whether a player has something to mate with, if the other helps.
pub open spec fn armed(board: Board, color: Color) -> bool {
    heavy(board, color) > 0 || light(board, color) > 1
}

/// Whether a player has something to force mate with.
pub open spec fn deadly(board: Board, color: Color) -> bool {
    let knights = holding(board, Role::Knight, color);
    let bishops = holding(board, Role::Bishop, color);
    heavy(board, color) > 0 || bishops > 1 || (bishops == 1 && knights > 0)
}

/// Whether a player has at most a pawn besides the king.
pub open spec fn stripped(board: Board, color: Color) -> bool {
    &&& holding(board, Role::Knight, color) == 0
    &&& holding(board, Role::Bishop, color) == 0
    &&& holding(board, Role::Rook, color) == 0
    &&& holding(board, Role::Queen, color) == 0
    &&& holding(board, Role::Pawn, color) <= 1
}

/// Whether a player has at most one bishop or knight besides the king.
pub open spec fn exhausted(board: Board, color: Color) -> bool {
    &&& heavy(board, color) == 0
    &&& holding(board, Role::Knight, color) + holding(board, Role::Bishop, color) <= 1
}

/// Whether a king is to be caught by technique alone.
pub open spec fn cornered(board: Board, defender: Color) -> bool {
    stripped(board, defender) && deadly(board, defender.opposite())
}

/// How many squares on and around a king the other player attacks.
pub open spec fn threats(board: Board, king: int, defender: Color) -> int {
    bits::tally(
        |s: int|
            chess::king_steps(king, s) <= 1 && board.attacked(
                defender.opposite(),
                board.everything(),
                s,
            ),
    ) as int
}

/// How many of its own pawns stand around a king.
pub open spec fn guards(board: Board, king: int, defender: Color) -> int {
    bits::tally(
        |s: int|
            chess::king_steps(king, s) <= 1 && bits::on(board.side(defender), s) && bits::on(
                board.pawns,
                s,
            ),
    ) as int
}

/// How many lines a square is from the nearer edge of the board, of the eight lines
/// that run one way.
pub open spec fn from_edge(line: int) -> int {
    if line < 4 {
        line
    } else {
        7 - line
    }
}

/// How many ranks a king has come from its own back rank.
pub open spec fn walked(king: int, defender: Color) -> int {
    if defender == Color::White {
        king / 8
    } else {
        7 - king / 8
    }
}

/// How close the pieces of a player, pawns apart, stand to a king: seven less the
/// king moves between them, each.
pub open spec fn hunters(board: Board, king: int, attacker: Color) -> int {
    bits::total(
        board.side(attacker),
        |s: int|
            if bits::on(board.pawns, s) {
                0
            } else {
                7 - chess::king_steps(king, s)
            },
    )
}

/// How many pawns a player has within two moves of promotion or nearer.
pub open spec fn runners(board: Board, color: Color) -> int {
    bits::tally(
        |s: int|
            bits::on(board.side(color), s) && bits::on(board.pawns, s) && (if color
                == Color::White {
                s >= 40
            } else {
                s < 24
            }),
    ) as int
}

/// How many squares a player attacks that none of their own pieces stands on.
pub open spec fn reach(board: Board, color: Color) -> int {
    bits::tally(
        |s: int|
            !bits::on(board.side(color), s) && board.attacked(color, board.everything(), s),
    ) as int
}

/// What a role is worth, in centipawns.
pub open spec fn price(role: Role) -> int {
    match role {
        Role::Pawn => 100,
        Role::Knight => 320,
        Role::Bishop => 330,
        Role::Rook => 500,
        Role::Queen => 900,
        Role::King => 0,
    }
}

/// What the pieces are worth that a player leaves attacked, and that are defended or
/// not, kings apart.
pub open spec fn at_stake(board: Board, owner: Color, defended: bool) -> int {
    bits::total(
        board.side(owner),
        |s: int|
            if !bits::on(board.kings, s) && board.attacked(
                owner.opposite(),
                board.everything(),
                s,
            ) && board.attacked(owner, board.everything(), s) == defended {
                price(board.role_on(s))
            } else {
                0
            },
    )
}

/// One where something holds, and nothing else.
pub open spec fn one_if(holds: bool) -> int {
    if holds {
        1
    } else {
        0
    }
}

/// A number where something holds, and nothing else.
pub open spec fn only_if(holds: bool, n: int) -> int {
    if holds {
        n
    } else {
        0
    }
}

// What is counted.

proof fn lemma_tally_positive(p: spec_fn(int) -> bool, n: nat)
    ensures
        bits::tally_below(p, n) > 0 <==> exists|s: int| 0 <= s < n && #[trigger] p(s),
    decreases n,
{
    if n > 0 {
        lemma_tally_positive(p, (n - 1) as nat);
        if p(n - 1) {
            assert(0 <= n - 1 < n && p(n - 1));
        }
    }
}

proof fn lemma_heavy(board: Board, color: Color)
    ensures
        has_major(board, color) <==> heavy(board, color) > 0,
{
    let p = board.mine(Role::Pawn, color);
    let r = board.mine(Role::Rook, color);
    let q = board.mine(Role::Queen, color);
    lemma_tally_positive(p, 64);
    lemma_tally_positive(r, 64);
    lemma_tally_positive(q, 64);
    if has_major(board, color) {
        let s = choose|s: int|
            {
                &&& #[trigger] bits::on(board.side(color), s)
                &&& bits::on(board.pawns, s) || bits::on(board.rooks, s) || bits::on(
                    board.queens,
                    s,
                )
            };
        assert(p(s) || r(s) || q(s));
    }
    if heavy(board, color) > 0 {
        if bits::tally(p) > 0 {
            let s = choose|s: int| 0 <= s < 64 && #[trigger] p(s);
            assert(bits::on(board.side(color), s));
        } else if bits::tally(r) > 0 {
            let s = choose|s: int| 0 <= s < 64 && #[trigger] r(s);
            assert(bits::on(board.side(color), s));
        } else {
            let s = choose|s: int| 0 <= s < 64 && #[trigger] q(s);
            assert(bits::on(board.side(color), s));
        }
    }
}

proof fn lemma_means(board: Board, color: Color)
    ensures
        mate_is_possible(board, color) == armed(board, color),
        mate_is_forcible(board, color) == deadly(board, color),
{
    lemma_heavy(board, color);
    let a = minors(board, color);
    let b = |s: int|
        bits::on(board.side(color), s) && (bits::on(board.knights, s) || bits::on(
            board.bishops,
            s,
        ));
    assert forall|s: int| 0 <= s < 64 implies #[trigger] a(s) == b(s) by {}
    bits::lemma_tally_same(a, b, 64);
}

/// A player who has a pawn can mate, and can force mate: a pawn can become a queen.
/// So can a player who has a rook or a queen.
pub proof fn law_a_pawn_a_rook_or_a_queen_is_enough(board: Board, color: Color)
    ensures
        holding(board, Role::Pawn, color) > 0 ==> mate_is_possible(board, color)
            && mate_is_forcible(board, color),
        holding(board, Role::Rook, color) > 0 ==> mate_is_possible(board, color)
            && mate_is_forcible(board, color),
        holding(board, Role::Queen, color) > 0 ==> mate_is_possible(board, color)
            && mate_is_forcible(board, color),
        forall|s: int|
            #![trigger bits::on(board.side(color), s)]
            bits::on(board.side(color), s) && (bits::on(board.pawns, s) || bits::on(
                board.rooks,
                s,
            ) || bits::on(board.queens, s)) ==> mate_is_possible(board, color)
                && mate_is_forcible(board, color),
{
    lemma_heavy(board, color);
}

/// Without pawns, rooks and queens it takes two minor pieces to mate. Two knights do
/// not force it; any other two do.
pub proof fn law_two_minor_pieces_are_enough(board: Board, color: Color)
    requires
        minors_apart(board),
        holding(board, Role::Pawn, color) == 0,
        holding(board, Role::Rook, color) == 0,
        holding(board, Role::Queen, color) == 0,
    ensures
        ({
            let knights = holding(board, Role::Knight, color);
            let bishops = holding(board, Role::Bishop, color);
            &&& mate_is_possible(board, color) <==> knights + bishops >= 2
            &&& mate_is_forcible(board, color) <==> knights + bishops >= 2 && bishops >= 1
        }),
{
    lemma_heavy(board, color);
    eval::lemma_minors(board, color, 64);
}

/// Whoever can force mate can mate, and more material never takes that away.
pub proof fn law_what_can_be_forced_can_be_done(board: Board, color: Color)
    requires
        minors_apart(board),
        mate_is_forcible(board, color),
    ensures
        mate_is_possible(board, color),
{
    eval::lemma_minors(board, color, 64);
}

/// Whether one board is another with a piece more on a square that was empty.
pub open spec fn adds(more: Board, less: Board, s: int, role: Role, color: Color) -> bool {
    &&& 0 <= s < 64
    &&& forall|r: Role, t: int|
        #![trigger bits::on(more.of_role(r), t)]
        #![trigger bits::on(less.of_role(r), t)]
        bits::on(more.of_role(r), t) == (bits::on(less.of_role(r), t) || (t == s && r == role))
    &&& forall|c: Color, t: int|
        #![trigger bits::on(more.side(c), t)]
        #![trigger bits::on(less.side(c), t)]
        bits::on(more.side(c), t) == (bits::on(less.side(c), t) || (t == s && c == color))
    &&& forall|c: Color| !#[trigger] bits::on(less.side(c), s)
    &&& forall|r: Role| !#[trigger] bits::on(less.of_role(r), s)
}

proof fn lemma_one_more(p: spec_fn(int) -> bool, q: spec_fn(int) -> bool, s: int, n: nat)
    requires
        0 <= s,
        !q(s),
        forall|t: int| 0 <= t < n ==> #[trigger] p(t) == (q(t) || t == s),
    ensures
        bits::tally_below(p, n) == bits::tally_below(q, n) + one_if(s < n),
    decreases n,
{
    if n > 0 {
        lemma_one_more(p, q, s, (n - 1) as nat);
        assert(p(n - 1) == (q(n - 1) || n - 1 == s));
    }
}

proof fn lemma_holding_one_more(
    more: Board,
    less: Board,
    s: int,
    role: Role,
    color: Color,
    r: Role,
    c: Color,
)
    requires
        adds(more, less, s, role, color),
    ensures
        holding(more, r, c) == holding(less, r, c) + one_if(r == role && c == color),
{
    let p = more.mine(r, c);
    let q = less.mine(r, c);
    assert(!bits::on(less.side(c), s));
    assert(!bits::on(less.of_role(r), s));
    assert forall|t: int| 0 <= t < 64 implies #[trigger] p(t) == (q(t) || (t == s && r == role && c
        == color)) by {
        assert(bits::on(more.of_role(r), t) == (bits::on(less.of_role(r), t) || (t == s && r
            == role)));
        assert(bits::on(more.side(c), t) == (bits::on(less.side(c), t) || (t == s && c == color)));
    }
    if r == role && c == color {
        lemma_one_more(p, q, s, 64);
    } else {
        bits::lemma_tally_same(p, q, 64);
    }
}

/// A piece adds what its role is worth to the material of its owner, and nothing to
/// that of the other player: a pawn 100, a knight 320, a bishop 330, a rook 500, a
/// queen 900, and a king nothing.
pub proof fn law_a_piece_is_worth_its_role(
    more: Board,
    less: Board,
    s: int,
    role: Role,
    color: Color,
)
    requires
        adds(more, less, s, role, color),
    ensures
        wealth(more, color) == wealth(less, color) + price(role),
        wealth(more, color.opposite()) == wealth(less, color.opposite()),
        eval::worth(role) == price(role),
{
    let other = color.opposite();
    lemma_holding_one_more(more, less, s, role, color, Role::Pawn, color);
    lemma_holding_one_more(more, less, s, role, color, Role::Knight, color);
    lemma_holding_one_more(more, less, s, role, color, Role::Bishop, color);
    lemma_holding_one_more(more, less, s, role, color, Role::Rook, color);
    lemma_holding_one_more(more, less, s, role, color, Role::Queen, color);
    lemma_holding_one_more(more, less, s, role, color, Role::Pawn, other);
    lemma_holding_one_more(more, less, s, role, color, Role::Knight, other);
    lemma_holding_one_more(more, less, s, role, color, Role::Bishop, other);
    lemma_holding_one_more(more, less, s, role, color, Role::Rook, other);
    lemma_holding_one_more(more, less, s, role, color, Role::Queen, other);
}

proof fn lemma_king_square(board: Board, color: Color, king: int)
    requires
        board.sole_king(color, king),
    ensures
        0 <= king < 64,
        board.king_square(color) == Some(king as u8),
{
    assert(board.mine(Role::King, color)(king));
    let found = choose|s: int| board.sole_king(color, s);
    assert(board.mine(Role::King, color)(found));
}

/// What the prices of a king's danger come to.
spec fn trouble(
    board: Board,
    defender: Color,
    king: int,
    other: int,
    checked: bool,
    w: Weights,
) -> int {
    if !armed(board, defender.opposite()) {
        0
    } else {
        threats(board, king, defender) * w.king_ring_attack - guards(board, king, defender)
            * w.king_shelter + (if cornered(board, defender) {
            (6 - from_edge(king % 8) - from_edge(king / 8)) * w.mop_up_edge + (7
                - chess::king_steps(king, other)) * w.mop_up_kings
        } else {
            walked(king, defender) * w.king_advance + from_edge(king % 8) * w.king_centre
        }) + (if checked {
            w.in_check as int
        } else {
            0
        }) + hunters(board, king, defender.opposite()) * w.hunter_proximity
    }
}

proof fn lemma_total_same(
    set: u64,
    f: spec_fn(int) -> int,
    g: spec_fn(int) -> int,
    n: nat,
)
    requires
        n <= 64,
        forall|s: int| 0 <= s < 64 ==> #[trigger] f(s) == g(s),
    ensures
        bits::total_below(set, f, n) == bits::total_below(set, g, n),
    decreases n,
{
    if n > 0 {
        lemma_total_same(set, f, g, (n - 1) as nat);
        assert(f(n - 1) == g(n - 1));
    }
}

proof fn lemma_trouble(
    board: Board,
    defender: Color,
    king: int,
    other: int,
    checked: bool,
    w: Weights,
)
    requires
        board.sole_king(defender, king),
        board.sole_king(defender.opposite(), other),
    ensures
        danger(board, defender, checked, w) == trouble(board, defender, king, other, checked, w),
{
    let attacker = defender.opposite();
    lemma_king_square(board, defender, king);
    lemma_king_square(board, attacker, other);
    lemma_means(board, attacker);
    let a = ring_hits(king, attacked_by(board, attacker));
    let b = |s: int|
        chess::king_steps(king, s) <= 1 && board.attacked(
            defender.opposite(),
            board.everything(),
            s,
        );
    assert forall|s: int| 0 <= s < 64 implies #[trigger] a(s) == b(s) by {}
    bits::lemma_tally_same(a, b, 64);
    let c = shelter(board, king, defender);
    let d = |s: int|
        chess::king_steps(king, s) <= 1 && bits::on(board.side(defender), s) && bits::on(
            board.pawns,
            s,
        );
    assert forall|s: int| 0 <= s < 64 implies #[trigger] c(s) == d(s) by {}
    bits::lemma_tally_same(c, d, 64);
    let e = eval::closeness(board, king);
    let f = |s: int|
        if bits::on(board.pawns, s) {
            0
        } else {
            7 - chess::king_steps(king, s)
        };
    assert forall|s: int| 0 <= s < 64 implies #[trigger] e(s) == f(s) by {}
    lemma_total_same(board.side(attacker), e, f, 64);
    assert(stripped(board, defender) <==> wealth(board, defender) <= 100);
}

/// What the prices of draws come to.
spec fn drawishness(board: Board, victim: Color, w: Weights) -> int {
    only_if(!armed(board, victim.opposite()), w.no_mate_material as int) + only_if(
        armed(board, victim.opposite()) && !deadly(board, victim.opposite()),
        w.no_forced_mate as int,
    ) + only_if(exhausted(board, victim), w.stalemate_risk as int)
}

proof fn lemma_drawishness(board: Board, victim: Color, w: Weights)
    ensures
        eval::draw_terms(board, victim, w) == drawishness(board, victim, w),
{
    lemma_means(board, victim.opposite());
    assert(exhausted(board, victim) <==> holding(board, Role::Pawn, victim) == 0 && wealth(
        board,
        victim,
    ) <= 400);
}

/// What the prices of a score come to, the four that are rounded apart.
spec fn reckoning(
    position: Position,
    victim: Color,
    mine: int,
    theirs: int,
    w: Weights,
) -> int {
    let board = position.board;
    let hunter = victim.opposite();
    let check = position.in_check();
    eval::toward_zero((wealth(board, hunter) - wealth(board, victim)) * w.material, 100)
        - drawishness(board, victim, w) + trouble(
        board,
        victim,
        mine,
        theirs,
        check && position.turn == victim,
        w,
    ) - trouble(board, hunter, theirs, mine, check && position.turn == hunter, w) + offered(
        board,
        victim,
        w,
    ) - offered(board, hunter, w) + (runners(board, hunter) - runners(board, victim))
        * w.enemy_promotion + (runners(board, hunter) - runners(board, victim)) * w.promotion_risk
        - eval::toward_zero((reach(board, victim) - reach(board, hunter)) * w.mobility, 8)
}

/// Whether each player has one king, and where it stands.
pub open spec fn kings_at(board: Board, victim: Color, mine: int, theirs: int) -> bool {
    board.sole_king(victim, mine) && board.sole_king(victim.opposite(), theirs)
}

proof fn lemma_reckoning(position: Position, victim: Color, mine: int, theirs: int, w: Weights)
    requires
        kings_at(position.board, victim, mine, theirs),
    ensures
        evaluation(position, victim, w) == reckoning(position, victim, mine, theirs, w),
{
    let board = position.board;
    let hunter = victim.opposite();
    let check = position.in_check();
    assert(hunter.opposite() == victim);
    lemma_drawishness(board, victim, w);
    lemma_trouble(board, victim, mine, theirs, check && position.turn == victim, w);
    lemma_trouble(board, hunter, theirs, mine, check && position.turn == hunter, w);
    lemma_runners(board, victim);
    lemma_runners(board, hunter);
    lemma_reach(board, victim);
    lemma_reach(board, hunter);
}

proof fn lemma_runners(board: Board, color: Color)
    ensures
        bits::tally(far_pawns(board, color)) == runners(board, color),
{
    let a = far_pawns(board, color);
    let b = |s: int|
        bits::on(board.side(color), s) && bits::on(board.pawns, s) && (if color == Color::White {
            s >= 40
        } else {
            s < 24
        });
    assert forall|s: int| 0 <= s < 64 implies #[trigger] a(s) == b(s) by {}
    bits::lemma_tally_same(a, b, 64);
}

proof fn lemma_reach(board: Board, color: Color)
    ensures
        bits::tally(freedom(board, color)) == reach(board, color),
{
    let a = freedom(board, color);
    let b = |s: int|
        !bits::on(board.side(color), s) && board.attacked(color, board.everything(), s);
    assert forall|s: int| 0 <= s < 64 implies #[trigger] a(s) == b(s) by {}
    bits::lemma_tally_same(a, b, 64);
}

/// A price that changes changes the bill by the count times the change.
proof fn lemma_price(n: int, a: int, b: int)
    ensures
        n * b - n * a == n * (b - a),
{
    assert(n * b - n * a == n * (b - a)) by (nonlinear_arith);
}

/// A rook's worth of difference: the material of both players counts as a percentage,
/// for the hunter's and against the victim's.
pub proof fn law_material_counts_as_a_percentage(
    position: Position,
    victim: Color,
    mine: int,
    theirs: int,
    w: Weights,
    v: Weights,
)
    requires
        kings_at(position.board, victim, mine, theirs),
        v == (Weights { material: v.material, ..w }),
        w.material % 10 == 0,
        v.material % 10 == 0,
    ensures
        100 * (evaluation(position, victim, v) - evaluation(position, victim, w)) == (wealth(
            position.board,
            victim.opposite(),
        ) - wealth(position.board, victim)) * (v.material - w.material),
{
    lemma_reckoning(position, victim, mine, theirs, w);
    lemma_reckoning(position, victim, mine, theirs, v);
    lemma_offered_same(position.board, victim, w, v);
    lemma_offered_same(position.board, victim.opposite(), w, v);
    let lead = wealth(position.board, victim.opposite()) - wealth(position.board, victim);
    assert(lead % 10 == 0);
    lemma_exact(lead, w.material as int, 100);
    lemma_exact(lead, v.material as int, 100);
    lemma_price(lead, w.material as int, v.material as int);
}

/// Multiples of ten have a product that is a multiple of a hundred.
proof fn lemma_exact(x: int, y: int, d: int)
    requires
        d == 100,
        x % 10 == 0,
        y % 10 == 0,
    ensures
        d * eval::toward_zero(x * y, d) == x * y,
{
    let a = x / 10;
    let b = y / 10;
    assert(x == 10 * a && y == 10 * b);
    assert(x * y == 100 * (a * b)) by (nonlinear_arith)
        requires
            x == 10 * a,
            y == 10 * b,
    ;
}

/// What is offered depends on no weight but its own two.
proof fn lemma_offered_same(board: Board, owner: Color, w: Weights, v: Weights)
    requires
        w.hanging == v.hanging,
        w.attacked == v.attacked,
    ensures
        offered(board, owner, w) == offered(board, owner, v),
{
    let f = offer(board, owner, w);
    let g = offer(board, owner, v);
    assert forall|s: int| 0 <= s < 64 implies #[trigger] f(s) == g(s) by {}
    lemma_total_same(board.side(owner), f, g, 64);
}

/// A hunter who cannot mate at all costs the first penalty, one who could but cannot
/// force it the second, and any other neither.
pub proof fn law_someone_has_to_finish_the_job(
    position: Position,
    victim: Color,
    mine: int,
    theirs: int,
    w: Weights,
    v: Weights,
)
    requires
        kings_at(position.board, victim, mine, theirs),
        v == (Weights {
            no_mate_material: v.no_mate_material,
            no_forced_mate: v.no_forced_mate,
            ..w
        }),
    ensures
        ({
            let change = evaluation(position, victim, w) - evaluation(position, victim, v);
            let hunter = victim.opposite();
            if !armed(position.board, hunter) {
                change == v.no_mate_material - w.no_mate_material
            } else if !deadly(position.board, hunter) {
                change == v.no_forced_mate - w.no_forced_mate
            } else {
                change == 0
            }
        }),
{
    lemma_reckoning(position, victim, mine, theirs, w);
    lemma_reckoning(position, victim, mine, theirs, v);
    lemma_offered_same(position.board, victim, w, v);
    lemma_offered_same(position.board, victim.opposite(), w, v);
}

/// A victim with at most one minor piece is about to be stalemated, which costs a
/// penalty; one with more, or with a pawn, is not.
pub proof fn law_a_player_with_nothing_left_risks_stalemate(
    position: Position,
    victim: Color,
    mine: int,
    theirs: int,
    w: Weights,
    v: Weights,
)
    requires
        kings_at(position.board, victim, mine, theirs),
        v == (Weights { stalemate_risk: v.stalemate_risk, ..w }),
    ensures
        evaluation(position, victim, w) - evaluation(position, victim, v) == only_if(
            exhausted(position.board, victim),
            v.stalemate_risk - w.stalemate_risk,
        ),
{
    lemma_reckoning(position, victim, mine, theirs, w);
    lemma_reckoning(position, victim, mine, theirs, v);
    lemma_offered_same(position.board, victim, w, v);
    lemma_offered_same(position.board, victim.opposite(), w, v);
}

/// Each square on and around the victim's king that the hunter attacks earns its
/// price, and each around the hunter's king that the victim attacks costs it, as far
/// as the attacker could mate.
pub proof fn law_attacks_around_a_king_count(
    position: Position,
    victim: Color,
    mine: int,
    theirs: int,
    w: Weights,
    v: Weights,
)
    requires
        kings_at(position.board, victim, mine, theirs),
        v == (Weights { king_ring_attack: v.king_ring_attack, ..w }),
    ensures
        ({
            let board = position.board;
            let hunter = victim.opposite();
            evaluation(position, victim, v) - evaluation(position, victim, w) == (only_if(
                armed(board, hunter),
                threats(board, mine, victim),
            ) - only_if(armed(board, victim), threats(board, theirs, hunter))) * (
            v.king_ring_attack - w.king_ring_attack)
        }),
{
    let board = position.board;
    let hunter = victim.opposite();
    lemma_reckoning(position, victim, mine, theirs, w);
    lemma_reckoning(position, victim, mine, theirs, v);
    lemma_offered_same(board, victim, w, v);
    lemma_offered_same(board, hunter, w, v);
    lemma_two_prices(
        only_if(armed(board, hunter), threats(board, mine, victim)),
        only_if(armed(board, victim), threats(board, theirs, hunter)),
        w.king_ring_attack as int,
        v.king_ring_attack as int,
    );
}

/// The bills of both players change by their counts times the change of the price.
proof fn lemma_two_prices(n: int, m: int, a: int, b: int)
    ensures
        (n * b - n * a) - (m * b - m * a) == (n - m) * (b - a),
        0 * a == 0,
        0 * b == 0,
{
    assert((n * b - n * a) - (m * b - m * a) == (n - m) * (b - a)) by (nonlinear_arith);
}

/// Each pawn that shelters the victim's king costs its price, and each that shelters
/// the hunter's king earns it.
pub proof fn law_sheltering_pawns_count(
    position: Position,
    victim: Color,
    mine: int,
    theirs: int,
    w: Weights,
    v: Weights,
)
    requires
        kings_at(position.board, victim, mine, theirs),
        v == (Weights { king_shelter: v.king_shelter, ..w }),
    ensures
        ({
            let board = position.board;
            let hunter = victim.opposite();
            evaluation(position, victim, w) - evaluation(position, victim, v) == (only_if(
                armed(board, hunter),
                guards(board, mine, victim),
            ) - only_if(armed(board, victim), guards(board, theirs, hunter))) * (v.king_shelter
                - w.king_shelter)
        }),
{
    let board = position.board;
    let hunter = victim.opposite();
    lemma_reckoning(position, victim, mine, theirs, w);
    lemma_reckoning(position, victim, mine, theirs, v);
    lemma_offered_same(board, victim, w, v);
    lemma_offered_same(board, hunter, w, v);
    lemma_two_prices(
        only_if(armed(board, hunter), guards(board, mine, victim)),
        only_if(armed(board, victim), guards(board, theirs, hunter)),
        w.king_shelter as int,
        v.king_shelter as int,
    );
}

/// Whether a king is measured by how far it has left home: it can be hunted down,
/// and not by technique alone.
pub open spec fn abroad(board: Board, defender: Color) -> bool {
    armed(board, defender.opposite()) && !cornered(board, defender)
}

/// Whether a king is measured by how near it is to being caught by technique.
pub open spec fn trapped(board: Board, defender: Color) -> bool {
    armed(board, defender.opposite()) && cornered(board, defender)
}

/// Each rank that a king has come from its own side counts, and each file that it
/// stands away from the nearer edge: for the victim's king, and against the hunter's.
pub proof fn law_a_king_that_has_left_home_counts(
    position: Position,
    victim: Color,
    mine: int,
    theirs: int,
    w: Weights,
    v: Weights,
)
    requires
        kings_at(position.board, victim, mine, theirs),
        v == (Weights { king_advance: v.king_advance, king_centre: v.king_centre, ..w }),
    ensures
        ({
            let board = position.board;
            let hunter = victim.opposite();
            evaluation(position, victim, v) - evaluation(position, victim, w) == (only_if(
                abroad(board, victim),
                walked(mine, victim),
            ) - only_if(abroad(board, hunter), walked(theirs, hunter))) * (v.king_advance
                - w.king_advance) + (only_if(abroad(board, victim), from_edge(mine % 8)) - only_if(
                abroad(board, hunter),
                from_edge(theirs % 8),
            )) * (v.king_centre - w.king_centre)
        }),
{
    let board = position.board;
    let hunter = victim.opposite();
    lemma_reckoning(position, victim, mine, theirs, w);
    lemma_reckoning(position, victim, mine, theirs, v);
    lemma_offered_same(board, victim, w, v);
    lemma_offered_same(board, hunter, w, v);
    lemma_two_prices(
        only_if(abroad(board, victim), walked(mine, victim)),
        only_if(abroad(board, hunter), walked(theirs, hunter)),
        w.king_advance as int,
        v.king_advance as int,
    );
    lemma_two_prices(
        only_if(abroad(board, victim), from_edge(mine % 8)),
        only_if(abroad(board, hunter), from_edge(theirs % 8)),
        w.king_centre as int,
        v.king_centre as int,
    );
}

/// A bare king that is to be mated by technique counts by how far it is from the
/// centre, none in the four middle squares and six in a corner, and by how near the
/// other king has come.
pub proof fn law_a_bare_king_is_driven_to_the_edge(
    position: Position,
    victim: Color,
    mine: int,
    theirs: int,
    w: Weights,
    v: Weights,
)
    requires
        kings_at(position.board, victim, mine, theirs),
        v == (Weights { mop_up_edge: v.mop_up_edge, mop_up_kings: v.mop_up_kings, ..w }),
    ensures
        ({
            let board = position.board;
            let hunter = victim.opposite();
            let near = 7 - chess::king_steps(mine, theirs);
            evaluation(position, victim, v) - evaluation(position, victim, w) == (only_if(
                trapped(board, victim),
                6 - from_edge(mine % 8) - from_edge(mine / 8),
            ) - only_if(
                trapped(board, hunter),
                6 - from_edge(theirs % 8) - from_edge(theirs / 8),
            )) * (v.mop_up_edge - w.mop_up_edge) + (only_if(trapped(board, victim), near) - only_if(
                trapped(board, hunter),
                near,
            )) * (v.mop_up_kings - w.mop_up_kings)
        }),
{
    let board = position.board;
    let hunter = victim.opposite();
    let near = 7 - chess::king_steps(mine, theirs);
    assert(chess::king_steps(theirs, mine) == chess::king_steps(mine, theirs));
    lemma_reckoning(position, victim, mine, theirs, w);
    lemma_reckoning(position, victim, mine, theirs, v);
    lemma_offered_same(board, victim, w, v);
    lemma_offered_same(board, hunter, w, v);
    lemma_two_prices(
        only_if(trapped(board, victim), 6 - from_edge(mine % 8) - from_edge(mine / 8)),
        only_if(trapped(board, hunter), 6 - from_edge(theirs % 8) - from_edge(theirs / 8)),
        w.mop_up_edge as int,
        v.mop_up_edge as int,
    );
    lemma_two_prices(
        only_if(trapped(board, victim), near),
        only_if(trapped(board, hunter), near),
        w.mop_up_kings as int,
        v.mop_up_kings as int,
    );
}

/// A check counts once, for the victim where it is in check and against it where the
/// hunter is, as far as the one who gives it could mate.
pub proof fn law_a_check_counts_once(
    position: Position,
    victim: Color,
    mine: int,
    theirs: int,
    w: Weights,
    v: Weights,
)
    requires
        kings_at(position.board, victim, mine, theirs),
        v == (Weights { in_check: v.in_check, ..w }),
    ensures
        ({
            let change = evaluation(position, victim, v) - evaluation(position, victim, w);
            let price = v.in_check - w.in_check;
            if !position.in_check() || !armed(position.board, position.turn.opposite()) {
                change == 0
            } else if position.turn == victim {
                change == price
            } else {
                change == -price
            }
        }),
{
    let board = position.board;
    let hunter = victim.opposite();
    lemma_reckoning(position, victim, mine, theirs, w);
    lemma_reckoning(position, victim, mine, theirs, v);
    lemma_offered_same(board, victim, w, v);
    lemma_offered_same(board, hunter, w, v);
}

/// Each step that the hunter's pieces, pawns apart, stand closer to the victim's king
/// earns its price, and each that the victim's stand closer to the hunter's costs it.
pub proof fn law_hunters_close_in(
    position: Position,
    victim: Color,
    mine: int,
    theirs: int,
    w: Weights,
    v: Weights,
)
    requires
        kings_at(position.board, victim, mine, theirs),
        v == (Weights { hunter_proximity: v.hunter_proximity, ..w }),
    ensures
        ({
            let board = position.board;
            let hunter = victim.opposite();
            evaluation(position, victim, v) - evaluation(position, victim, w) == (only_if(
                armed(board, hunter),
                hunters(board, mine, hunter),
            ) - only_if(armed(board, victim), hunters(board, theirs, victim))) * (
            v.hunter_proximity - w.hunter_proximity)
        }),
{
    let board = position.board;
    let hunter = victim.opposite();
    assert(hunter.opposite() == victim);
    lemma_reckoning(position, victim, mine, theirs, w);
    lemma_reckoning(position, victim, mine, theirs, v);
    lemma_offered_same(board, victim, w, v);
    lemma_offered_same(board, hunter, w, v);
    lemma_two_prices(
        only_if(armed(board, hunter), hunters(board, mine, hunter)),
        only_if(armed(board, victim), hunters(board, theirs, victim)),
        w.hunter_proximity as int,
        v.hunter_proximity as int,
    );
}

/// Each pawn of the hunter's on the sixth rank or beyond earns both prices of
/// promotion, and each of the victim's costs them.
pub proof fn law_pawns_about_to_promote_count(
    position: Position,
    victim: Color,
    mine: int,
    theirs: int,
    w: Weights,
    v: Weights,
)
    requires
        kings_at(position.board, victim, mine, theirs),
        v == (Weights {
            promotion_risk: v.promotion_risk,
            enemy_promotion: v.enemy_promotion,
            ..w
        }),
    ensures
        evaluation(position, victim, v) - evaluation(position, victim, w) == (runners(
            position.board,
            victim.opposite(),
        ) - runners(position.board, victim)) * ((v.promotion_risk - w.promotion_risk) + (
        v.enemy_promotion - w.enemy_promotion)),
{
    let board = position.board;
    let hunter = victim.opposite();
    lemma_reckoning(position, victim, mine, theirs, w);
    lemma_reckoning(position, victim, mine, theirs, v);
    lemma_offered_same(board, victim, w, v);
    lemma_offered_same(board, hunter, w, v);
    let lead = runners(board, hunter) - runners(board, victim);
    let a = v.promotion_risk - w.promotion_risk;
    let b = v.enemy_promotion - w.enemy_promotion;
    lemma_price(lead, w.promotion_risk as int, v.promotion_risk as int);
    lemma_price(lead, w.enemy_promotion as int, v.enemy_promotion as int);
    assert(lead * a + lead * b == lead * (a + b)) by (nonlinear_arith);
}

/// Each square that the victim can go to costs an eighth of the price of mobility,
/// and each that the hunter can go to earns it.
pub proof fn law_mobility_counts_in_eighths(
    position: Position,
    victim: Color,
    mine: int,
    theirs: int,
    w: Weights,
    v: Weights,
)
    requires
        kings_at(position.board, victim, mine, theirs),
        v == (Weights { mobility: v.mobility, ..w }),
        w.mobility % 8 == 0,
        v.mobility % 8 == 0,
    ensures
        8 * (evaluation(position, victim, w) - evaluation(position, victim, v)) == (reach(
            position.board,
            victim,
        ) - reach(position.board, victim.opposite())) * (v.mobility - w.mobility),
{
    let board = position.board;
    let hunter = victim.opposite();
    lemma_reckoning(position, victim, mine, theirs, w);
    lemma_reckoning(position, victim, mine, theirs, v);
    lemma_offered_same(board, victim, w, v);
    lemma_offered_same(board, hunter, w, v);
    let lead = reach(board, victim) - reach(board, hunter);
    lemma_eighths(lead, w.mobility as int);
    lemma_eighths(lead, v.mobility as int);
    lemma_price(lead, w.mobility as int, v.mobility as int);
}

/// A multiple of eight has products that are multiples of eight.
proof fn lemma_eighths(x: int, y: int)
    requires
        y % 8 == 0,
    ensures
        8 * eval::toward_zero(x * y, 8) == x * y,
{
    let b = y / 8;
    assert(x * y == 8 * (x * b)) by (nonlinear_arith)
        requires
            y == 8 * b,
    ;
}

/// A sum whose terms are made of those of two others is made of them.
proof fn lemma_total_mixed(
    set: u64,
    f: spec_fn(int) -> int,
    g: spec_fn(int) -> int,
    h: spec_fn(int) -> int,
    a: int,
    b: int,
    n: nat,
)
    requires
        n <= 64,
        forall|s: int| 0 <= s < 64 ==> 10 * #[trigger] f(s) == a * g(s) + b * h(s),
    ensures
        10 * bits::total_below(set, f, n) == a * bits::total_below(set, g, n) + b
            * bits::total_below(set, h, n),
    decreases n,
{
    if n > 0 {
        lemma_total_mixed(set, f, g, h, a, b, (n - 1) as nat);
        let g0 = bits::total_below(set, g, (n - 1) as nat);
        let h0 = bits::total_below(set, h, (n - 1) as nat);
        assert(10 * f(n - 1) == a * g(n - 1) + b * h(n - 1));
        let g1 = g(n - 1);
        let h1 = h(n - 1);
        assert(a * (g0 + g1) == a * g0 + a * g1) by (nonlinear_arith);
        assert(b * (h0 + h1) == b * h0 + b * h1) by (nonlinear_arith);
    } else {
        assert(a * 0 + b * 0 == 0) by (nonlinear_arith);
    }
}

proof fn lemma_offered(board: Board, owner: Color, w: Weights)
    requires
        w.hanging % 10 == 0,
        w.attacked % 10 == 0,
    ensures
        10 * offered(board, owner, w) == (w.hanging as int / 10) * at_stake(board, owner, false) + (
        w.attacked as int / 10) * at_stake(board, owner, true),
{
    let a = w.hanging as int / 10;
    let b = w.attacked as int / 10;
    let f = offer(board, owner, w);
    let g = |s: int|
        if !bits::on(board.kings, s) && board.attacked(owner.opposite(), board.everything(), s)
            && board.attacked(owner, board.everything(), s) == false {
            price(board.role_on(s))
        } else {
            0
        };
    let h = |s: int|
        if !bits::on(board.kings, s) && board.attacked(owner.opposite(), board.everything(), s)
            && board.attacked(owner, board.everything(), s) == true {
            price(board.role_on(s))
        } else {
            0
        };
    assert forall|s: int| 0 <= s < 64 implies 10 * #[trigger] f(s) == a * g(s) + b * h(s) by {
        let worth = price(board.role_on(s));
        lemma_exact(worth, w.hanging as int, 100);
        lemma_exact(worth, w.attacked as int, 100);
        assert(worth * w.hanging == 10 * (a * worth)) by (nonlinear_arith)
            requires
                w.hanging == 10 * a,
        ;
        assert(worth * w.attacked == 10 * (b * worth)) by (nonlinear_arith)
            requires
                w.attacked == 10 * b,
        ;
        assert(a * 0 == 0 && b * 0 == 0) by (nonlinear_arith);
    }
    lemma_total_mixed(board.side(owner), f, g, h, a, b, 64);
    assert(at_stake(board, owner, false) == bits::total(board.side(owner), g));
    assert(at_stake(board, owner, true) == bits::total(board.side(owner), h));
}

/// A piece of the victim's that is attacked and not defended earns its percentage of
/// what it is worth, and one that is defended another; the hunter's count the other
/// way, and kings never do.
pub proof fn law_gifts_count_as_a_percentage(
    position: Position,
    victim: Color,
    mine: int,
    theirs: int,
    w: Weights,
    v: Weights,
)
    requires
        kings_at(position.board, victim, mine, theirs),
        v == (Weights { hanging: v.hanging, attacked: v.attacked, ..w }),
        w.hanging % 10 == 0,
        v.hanging % 10 == 0,
        w.attacked % 10 == 0,
        v.attacked % 10 == 0,
    ensures
        ({
            let board = position.board;
            let hunter = victim.opposite();
            100 * (evaluation(position, victim, v) - evaluation(position, victim, w)) == (at_stake(
                board,
                victim,
                false,
            ) - at_stake(board, hunter, false)) * (v.hanging - w.hanging) + (at_stake(
                board,
                victim,
                true,
            ) - at_stake(board, hunter, true)) * (v.attacked - w.attacked)
        }),
{
    let board = position.board;
    let hunter = victim.opposite();
    lemma_reckoning(position, victim, mine, theirs, w);
    lemma_reckoning(position, victim, mine, theirs, v);
    lemma_offered(board, victim, w);
    lemma_offered(board, victim, v);
    lemma_offered(board, hunter, w);
    lemma_offered(board, hunter, v);
    let a = at_stake(board, victim, false);
    let b = at_stake(board, hunter, false);
    let c = at_stake(board, victim, true);
    let d = at_stake(board, hunter, true);
    let h1 = w.hanging as int / 10;
    let h2 = v.hanging as int / 10;
    let k1 = w.attacked as int / 10;
    let k2 = v.attacked as int / 10;
    assert(10 * ((h2 * a + k2 * c) - (h2 * b + k2 * d) - (h1 * a + k1 * c) + (h1 * b + k1 * d)) == (
    a - b) * (10 * h2 - 10 * h1) + (c - d) * (10 * k2 - 10 * k1)) by (nonlinear_arith);
}

/// What a single piece offers is its percentage, rounded towards zero.
pub proof fn law_a_gift_is_rounded_towards_zero(board: Board, owner: Color, w: Weights, s: int)
    ensures
        ({
            let given = offer(board, owner, w)(s);
            let exposed = !bits::on(board.kings, s) && board.attacked(
                owner.opposite(),
                board.everything(),
                s,
            );
            let percent = if board.attacked(owner, board.everything(), s) {
                w.attacked
            } else {
                w.hanging
            };
            let whole = price(board.role_on(s)) * percent;
            &&& !exposed ==> given == 0
            &&& exposed && whole >= 0 ==> 100 * given <= whole < 100 * given + 100
            &&& exposed && whole < 0 ==> 100 * given - 100 < whole <= 100 * given
        }),
{
}

/// Where no weight counts, nothing does.
pub proof fn law_nothing_comes_of_nothing(
    position: Position,
    victim: Color,
    mine: int,
    theirs: int,
)
    requires
        kings_at(position.board, victim, mine, theirs),
    ensures
        evaluation(position, victim, Weights::nothing()) == 0,
{
    let board = position.board;
    let hunter = victim.opposite();
    let w = Weights::nothing();
    lemma_reckoning(position, victim, mine, theirs, w);
    lemma_offered(board, victim, w);
    lemma_offered(board, hunter, w);
    lemma_free(at_stake(board, victim, false), 0);
    lemma_free(at_stake(board, victim, true), 0);
    lemma_free(at_stake(board, hunter, false), 0);
    lemma_free(at_stake(board, hunter, true), 0);
    let check = position.in_check();
    lemma_no_trouble(board, victim, mine, theirs, check && position.turn == victim, w);
    lemma_no_trouble(board, hunter, theirs, mine, check && position.turn == hunter, w);
    lemma_free(wealth(board, hunter) - wealth(board, victim), w.material as int);
    lemma_free(runners(board, hunter) - runners(board, victim), w.enemy_promotion as int);
    lemma_free(runners(board, hunter) - runners(board, victim), w.promotion_risk as int);
    lemma_free(reach(board, victim) - reach(board, hunter), w.mobility as int);
}

/// What has no price costs nothing.
proof fn lemma_free(n: int, price: int)
    requires
        price == 0,
    ensures
        n * price == 0,
        price * n == 0,
{
    assert(n * price == 0 && price * n == 0) by (nonlinear_arith)
        requires
            price == 0,
    ;
}

proof fn lemma_no_trouble(
    board: Board,
    defender: Color,
    king: int,
    other: int,
    checked: bool,
    w: Weights,
)
    requires
        w == Weights::nothing(),
    ensures
        trouble(board, defender, king, other, checked, w) == 0,
{
    lemma_free(threats(board, king, defender), w.king_ring_attack as int);
    lemma_free(guards(board, king, defender), w.king_shelter as int);
    lemma_free(6 - from_edge(king % 8) - from_edge(king / 8), w.mop_up_edge as int);
    lemma_free(7 - chess::king_steps(king, other), w.mop_up_kings as int);
    lemma_free(walked(king, defender), w.king_advance as int);
    lemma_free(from_edge(king % 8), w.king_centre as int);
    lemma_free(hunters(board, king, defender.opposite()), w.hunter_proximity as int);
}

/// By material alone, the score is by how much the hunter has more than the victim.
pub proof fn law_material_alone_is_a_difference(
    position: Position,
    victim: Color,
    mine: int,
    theirs: int,
)
    requires
        kings_at(position.board, victim, mine, theirs),
    ensures
        evaluation(position, victim, Weights { material: 100, ..Weights::nothing() }) == wealth(
            position.board,
            victim.opposite(),
        ) - wealth(position.board, victim),
{
    let w = Weights::nothing();
    let v = Weights { material: 100, ..Weights::nothing() };
    law_nothing_comes_of_nothing(position, victim, mine, theirs);
    law_material_counts_as_a_percentage(position, victim, mine, theirs, w, v);
}

/// As the engine comes, every weight counts for what it is said to be for: none is
/// negative or nothing, a hanging piece is worth more than a defended one and less
/// than its price, and not being able to mate costs more than not being able to force
/// it, which costs more than the risk of stalemate.
pub proof fn law_the_usual_weights_all_count(w: Weights)
    requires
        w == Weights::usual(),
    ensures
        w.material == 100,
        100 > w.hanging > w.attacked > 0,
        w.no_mate_material > w.no_forced_mate > w.stalemate_risk > 0,
        w.king_ring_attack > 0 && w.in_check > w.king_ring_attack && w.king_shelter > 0,
        w.king_advance > w.king_centre > 0,
        w.mop_up_edge > w.mop_up_kings > 0,
        w.promotion_risk > w.enemy_promotion > 0,
        w.hunter_proximity > w.mobility > 0,
{
}

} // verus!
