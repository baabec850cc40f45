//! The sabotage evaluation.
//!
//! Every score in this module is *badness*, measured from the point of view of
//! the **victim**: the player who is trying to lose. A positive score means the
//! victim's situation is satisfyingly dire. A negative score means the victim is
//! in the humiliating position of winning.
//!
//! Getting this backwards from a normal evaluation is not just a sign flip.
//! An engine that only minimises its own material trades itself down to a bare
//! king and draws, which is a *failure*: a draw scores half a point, and half a
//! point is half a point too many. So the terms below pull in several
//! directions at once:
//!
//! * lose material, but keep enough of the opponent's on the board for them to
//!   mate with;
//! * leave pieces hanging where a greedy opponent will take them;
//! * march the king into the open where it can be caught;
//! * keep enough mobility to avoid stalemate, which is also a draw.
//!
//! [`evaluation`] says what the score is; [`evaluate_with`] computes it.

use vstd::prelude::*;

use crate::attacks;
use crate::bits;
use crate::chess;
use crate::chess::{Board, Color, Position, Role};

pub mod laws;

verus! {

/// Tunable weights for [`evaluate_with`].
///
/// All weights are in centipawns of badness. Raising one makes the engine care
/// more about that particular route to defeat.
#[derive(Clone, Copy, PartialEq, Eq, Debug, Structural)]
pub struct Weights {
    /// Scale applied to the material difference, as a percentage. At 100, a
    /// hanging queen is worth 900 badness.
    pub material: i32,
    /// Penalty when the opponent can no longer force mate (say, they are down
    /// to a lone bishop). Their bare king cannot punish us.
    pub no_forced_mate: i32,
    /// Penalty when the opponent cannot mate at all, even with our help. The
    /// game is heading for a dead draw.
    pub no_mate_material: i32,
    /// Penalty for the victim having so little left that stalemate looms.
    pub stalemate_risk: i32,
    /// Bonus per square around the victim's king that the opponent attacks.
    pub king_ring_attack: i32,
    /// Bonus for the victim standing in check.
    pub in_check: i32,
    /// Penalty per friendly pawn sheltering the victim's king.
    pub king_shelter: i32,
    /// Bonus per rank the victim's king has advanced from its own back rank.
    pub king_advance: i32,
    /// Bonus for the victim's king standing towards the centre files.
    pub king_centre: i32,
    /// Bonus per step a bare king stands from the centre, once the other side
    /// has only technique left to mate with. This is what drives a king to the
    /// edge of the board, where mate actually happens.
    pub mop_up_edge: i32,
    /// Bonus per step the mating king stands closer to the bare one.
    pub mop_up_kings: i32,
    /// Percentage of a piece's value earned for leaving it hanging.
    pub hanging: i32,
    /// Percentage of a piece's value earned for leaving it attacked but
    /// defended, which invites a trade rather than a gift.
    pub attacked: i32,
    /// Bonus per step the opponent's pieces stand closer to the victim's king.
    pub hunter_proximity: i32,
    /// Penalty per victim pawn on the sixth rank or beyond, since promoting
    /// would hand the victim a queen it does not want. An enemy pawn there counts
    /// the other way.
    pub promotion_risk: i32,
    /// Bonus per enemy pawn on the sixth rank or beyond: their new queen is
    /// another instrument of our defeat. A victim pawn there counts the other way.
    pub enemy_promotion: i32,
    /// Penalty per square of victim mobility. Passive pieces cannot rescue us,
    /// but the [`Weights::stalemate_risk`] term stops this from going too far.
    pub mobility: i32,
}

/// How far a number is from zero.
pub open spec fn magnitude(x: int) -> int {
    if x < 0 {
        -x
    } else {
        x
    }
}

/// Division that rounds towards zero.
pub open spec fn toward_zero(x: int, d: int) -> int {
    if x < 0 {
        -((-x) / d)
    } else {
        x / d
    }
}

impl Weights {
    /// The furthest from zero that any board can bring the score.
    pub open spec fn reach(self) -> int {
        1376 * magnitude(self.material as int) + magnitude(self.no_forced_mate as int) + magnitude(
            self.no_mate_material as int,
        ) + magnitude(self.stalemate_risk as int) + 128 * magnitude(self.king_ring_attack as int)
            + 2 * magnitude(self.in_check as int) + 128 * magnitude(self.king_shelter as int) + 14
            * magnitude(self.king_advance as int) + 6 * magnitude(self.king_centre as int) + 12
            * magnitude(self.mop_up_edge as int) + 14 * magnitude(self.mop_up_kings as int) + 1152
            * magnitude(self.hanging as int) + 1152 * magnitude(self.attacked as int) + 896
            * magnitude(self.hunter_proximity as int) + 64 * magnitude(self.promotion_risk as int)
            + 64 * magnitude(self.enemy_promotion as int) + 8 * magnitude(self.mobility as int)
    }

    /// Whether every score under these weights fits in an `i32`.
    pub open spec fn fits(self) -> bool {
        self.reach() <= i32::MAX
    }

    /// Weights that score a position the way an ordinary engine would: material
    /// and nothing else. Useful as a baseline in tests.
    pub fn material_only() -> (weights: Weights)
        ensures
            weights == (Weights { material: 100, ..Weights::nothing() }),
    {
        Weights { material: 100, ..Weights::zeroed() }
    }

    pub open spec fn nothing() -> Weights {
        Weights {
            material: 0,
            no_forced_mate: 0,
            no_mate_material: 0,
            stalemate_risk: 0,
            king_ring_attack: 0,
            in_check: 0,
            king_shelter: 0,
            king_advance: 0,
            king_centre: 0,
            mop_up_edge: 0,
            mop_up_kings: 0,
            hanging: 0,
            attacked: 0,
            hunter_proximity: 0,
            promotion_risk: 0,
            enemy_promotion: 0,
            mobility: 0,
        }
    }

    /// All weights set to zero.
    pub fn zeroed() -> (weights: Weights)
        ensures
            weights == Weights::nothing(),
    {
        Weights {
            material: 0,
            no_forced_mate: 0,
            no_mate_material: 0,
            stalemate_risk: 0,
            king_ring_attack: 0,
            in_check: 0,
            king_shelter: 0,
            king_advance: 0,
            king_centre: 0,
            mop_up_edge: 0,
            mop_up_kings: 0,
            hanging: 0,
            attacked: 0,
            hunter_proximity: 0,
            promotion_risk: 0,
            enemy_promotion: 0,
            mobility: 0,
        }
    }

    pub open spec fn usual() -> Weights {
        Weights {
            material: 100,
            no_forced_mate: 450,
            no_mate_material: 1200,
            stalemate_risk: 250,
            king_ring_attack: 14,
            in_check: 35,
            king_shelter: 25,
            king_advance: 22,
            king_centre: 14,
            mop_up_edge: 16,
            mop_up_kings: 12,
            hanging: 45,
            attacked: 12,
            hunter_proximity: 3,
            promotion_risk: 40,
            enemy_promotion: 25,
            mobility: 2,
        }
    }

    /// Whether every score under these weights fits in an `i32`, which
    /// [`evaluate_with`] asks for.
    pub fn are_bounded(&self) -> (bounded: bool)
        ensures
            bounded == self.fits(),
    {
        self.are_within(i32::MAX)
    }

    /// Whether every score under these weights is at most `limit` away from zero.
    pub fn are_within(&self, limit: i32) -> (bounded: bool)
        ensures
            bounded == (self.reach() <= limit),
    {
        let draws: i64 = size(self.no_forced_mate) + size(self.no_mate_material) + size(
            self.stalemate_risk,
        );
        let ring: i64 = 128 * size(self.king_ring_attack) + 2 * size(self.in_check) + 128 * size(
            self.king_shelter,
        );
        let stand: i64 = 14 * size(self.king_advance) + 6 * size(self.king_centre) + 12 * size(
            self.mop_up_edge,
        ) + 14 * size(self.mop_up_kings);
        let offers: i64 = 1152 * size(self.hanging) + 1152 * size(self.attacked);
        let pawns: i64 = 64 * size(self.promotion_risk) + 64 * size(self.enemy_promotion);
        let reach: i64 = 1376 * size(self.material) + draws + ring + stand + offers + 896 * size(
            self.hunter_proximity,
        ) + pawns + 8 * size(self.mobility);
        reach <= limit as i64
    }
}

impl Default for Weights {
    fn default() -> (weights: Weights)
        ensures
            weights == Weights::usual(),
            weights.fits(),
    {
        Weights {
            material: 100,
            no_forced_mate: 450,
            no_mate_material: 1200,
            stalemate_risk: 250,
            king_ring_attack: 14,
            in_check: 35,
            king_shelter: 25,
            king_advance: 22,
            king_centre: 14,
            mop_up_edge: 16,
            mop_up_kings: 12,
            hanging: 45,
            attacked: 12,
            hunter_proximity: 3,
            promotion_risk: 40,
            enemy_promotion: 25,
            mobility: 2,
        }
    }
}

fn size(weight: i32) -> (size: i64)
    ensures
        size == magnitude(weight as int),
        0 <= size <= 0x8000_0000,
{
    if weight < 0 {
        -(weight as i64)
    } else {
        weight as i64
    }
}

/// What a role is worth, in centipawns.
pub open spec fn worth(role: Role) -> int {
    match role {
        Role::Pawn => 100,
        Role::Knight => 320,
        Role::Bishop => 330,
        Role::Rook => 500,
        Role::Queen => 900,
        Role::King => 0,
    }
}

/// Centipawn value of each role, used for material and for deciding how
/// generous a gift is.
pub fn piece_value(role: Role) -> (value: i32)
    ensures
        value == worth(role),
{
    match role {
        Role::Pawn => 100,
        Role::Knight => 320,
        Role::Bishop => 330,
        Role::Rook => 500,
        Role::Queen => 900,
        Role::King => 0,
    }
}

/// How many pieces of a role a player has.
pub open spec fn holding(board: Board, role: Role, color: Color) -> int {
    bits::tally(board.mine(role, color)) as int
}

/// A player's material, kings excluded.
pub open spec fn wealth(board: Board, color: Color) -> int {
    100 * holding(board, Role::Pawn, color) + 320 * holding(board, Role::Knight, color) + 330
        * holding(board, Role::Bishop, color) + 500 * holding(board, Role::Rook, color) + 900
        * holding(board, Role::Queen, color)
}

/// Whether a player has a pawn, a rook or a queen.
pub open spec fn has_major(board: Board, color: Color) -> bool {
    exists|s: int|
        {
            &&& #[trigger] bits::on(board.side(color), s)
            &&& bits::on(board.pawns, s) || bits::on(board.rooks, s) || bits::on(board.queens, s)
        }
}

/// Whether a player could force mate against a lone king.
pub open spec fn mate_is_forcible(board: Board, color: Color) -> bool {
    let bishops = holding(board, Role::Bishop, color);
    let knights = holding(board, Role::Knight, color);
    has_major(board, color) || bishops >= 2 || (bishops >= 1 && knights >= 1)
}

/// The squares of a player's bishops and knights.
pub open spec fn minors(board: Board, color: Color) -> spec_fn(int) -> bool {
    |s: int|
        (bits::on(board.bishops, s) || bits::on(board.knights, s)) && bits::on(board.side(color), s)
}

/// Whether a player could mate at all, given a cooperative opponent.
pub open spec fn mate_is_possible(board: Board, color: Color) -> bool {
    has_major(board, color) || bits::tally(minors(board, color)) >= 2
}

/// The king's square and those around it.
pub open spec fn in_ring(king: int, s: int) -> bool {
    s == king || chess::king_reaches(king, s)
}

/// The squares of a king's ring that are under attack.
pub open spec fn ring_hits(king: int, hit: spec_fn(int) -> bool) -> spec_fn(int) -> bool {
    |s: int| in_ring(king, s) && hit(s)
}

/// The squares that a player attacks.
pub open spec fn attacked_by(board: Board, color: Color) -> spec_fn(int) -> bool {
    |s: int| board.attacked(color, board.everything(), s)
}

/// The pawns of `defender` in a king's ring.
pub open spec fn shelter(board: Board, king: int, defender: Color) -> spec_fn(int) -> bool {
    |s: int| in_ring(king, s) && bits::on(board.pawns, s) && bits::on(board.side(defender), s)
}

/// How far a square is from the four centre squares, in king moves along the
/// file plus along the rank. Zero in the centre, six in a corner.
pub open spec fn from_centre(s: int) -> int {
    chess::smaller(chess::gap(chess::file_of(s), 3), chess::gap(chess::file_of(s), 4))
        + chess::smaller(chess::gap(chess::rank_of(s), 3), chess::gap(chess::rank_of(s), 4))
}

/// How much closer than seven steps a piece other than a pawn stands to `king`.
pub open spec fn closeness(board: Board, king: int) -> spec_fn(int) -> int {
    |s: int|
        if bits::on(board.pawns, s) {
            0
        } else {
            7 - chess::king_steps(s, king)
        }
}

/// The part of the danger that depends on where the king stands.
pub open spec fn exposure(board: Board, king: int, defender: Color, weights: Weights) -> int {
    if wealth(board, defender) <= 100 && mate_is_forcible(board, defender.opposite()) {
        from_centre(king) * weights.mop_up_edge + match board.king_square(defender.opposite()) {
            Some(other) => (7 - chess::king_steps(king, other as int)) * weights.mop_up_kings,
            None => 0,
        }
    } else {
        defender.own_rank(chess::rank_of(king)) * weights.king_advance + (3 - chess::smaller(
            chess::gap(chess::file_of(king), 3),
            chess::gap(chess::file_of(king), 4),
        )) * weights.king_centre
    }
}

/// How much trouble `defender`'s king is in.
pub open spec fn danger(board: Board, defender: Color, checked: bool, weights: Weights) -> int {
    danger_under(board, defender, attacked_by(board, defender.opposite()), checked, weights)
}

/// How much trouble `defender`'s king is in, given the squares under attack.
pub open spec fn danger_under(
    board: Board,
    defender: Color,
    hit: spec_fn(int) -> bool,
    checked: bool,
    weights: Weights,
) -> int {
    let attacker = defender.opposite();
    match board.king_square(defender) {
        None => 0,
        Some(square) => {
            let king = square as int;
            if !mate_is_possible(board, attacker) {
                0
            } else {
                bits::tally(ring_hits(king, hit)) * weights.king_ring_attack
                    - bits::tally(shelter(board, king, defender)) * weights.king_shelter + exposure(
                    board,
                    king,
                    defender,
                    weights,
                ) + (if checked {
                    weights.in_check as int
                } else {
                    0
                }) + bits::total(board.side(attacker), closeness(board, king))
                    * weights.hunter_proximity
            }
        },
    }
}

/// What `owner` offers by leaving the piece on a square: part of its value if it
/// is attacked, and more if it is not defended.
pub open spec fn offer(board: Board, owner: Color, weights: Weights) -> spec_fn(int) -> int {
    |s: int|
        if board.attacked(owner.opposite(), board.everything(), s) && !bits::on(board.kings, s) {
            toward_zero(
                worth(board.role_on(s)) * if board.attacked(owner, board.everything(), s) {
                    weights.attacked
                } else {
                    weights.hanging
                },
                100,
            )
        } else {
            0
        }
}

/// The value `owner` is leaving on the table.
pub open spec fn offered(board: Board, owner: Color, weights: Weights) -> int {
    bits::total(board.side(owner), offer(board, owner, weights))
}

/// The pawns of `color` on the sixth rank or beyond, counted from their own side.
pub open spec fn far_pawns(board: Board, color: Color) -> spec_fn(int) -> bool {
    |s: int|
        bits::on(board.pawns, s) && bits::on(board.side(color), s) && color.own_rank(
            chess::rank_of(s),
        ) >= 5
}

/// The squares that a player attacks and does not stand on.
pub open spec fn freedom(board: Board, color: Color) -> spec_fn(int) -> bool {
    |s: int| board.attacked(color, board.everything(), s) && !bits::on(board.side(color), s)
}

/// The terms about draws, which count against the score whoever the victim is.
pub open spec fn draw_terms(board: Board, victim: Color, weights: Weights) -> int {
    (if !mate_is_possible(board, victim.opposite()) {
        weights.no_mate_material as int
    } else if !mate_is_forcible(board, victim.opposite()) {
        weights.no_forced_mate as int
    } else {
        0
    }) + (if holding(board, Role::Pawn, victim) == 0 && wealth(board, victim) <= 400 {
        weights.stalemate_risk as int
    } else {
        0
    })
}

/// Whether a player could force mate, and has a pawn or more than a piece.
pub open spec fn far_from_a_draw(board: Board, color: Color) -> bool {
    &&& mate_is_forcible(board, color)
    &&& holding(board, Role::Pawn, color) > 0 || wealth(board, color) > 400
}

/// Whether no square holds both a bishop and a knight.
pub open spec fn minors_apart(board: Board) -> bool {
    forall|s: int| !(#[trigger] bits::on(board.bishops, s) && bits::on(board.knights, s))
}

/// How many more pawns about to promote a player's opponent has than the player.
pub open spec fn far_pawn_lead(board: Board, victim: Color) -> int {
    bits::tally(far_pawns(board, victim.opposite())) - bits::tally(far_pawns(board, victim))
}

/// The pawns that are about to promote: the victim's count against it, and the
/// hunter's for it, by either weight.
pub open spec fn promotion_terms(board: Board, victim: Color, weights: Weights) -> int {
    far_pawn_lead(board, victim) * weights.enemy_promotion + far_pawn_lead(board, victim)
        * weights.promotion_risk
}

/// The badness of a position for `victim`.
pub open spec fn evaluation(position: Position, victim: Color, weights: Weights) -> int {
    let board = position.board;
    let hunter = victim.opposite();
    let check = position.in_check();
    toward_zero((wealth(board, hunter) - wealth(board, victim)) * weights.material, 100)
        - draw_terms(board, victim, weights) + danger(
        board,
        victim,
        check && position.turn == victim,
        weights,
    ) - danger(board, hunter, check && position.turn == hunter, weights) + offered(
        board,
        victim,
        weights,
    ) - offered(board, hunter, weights) + promotion_terms(board, victim, weights) - toward_zero(
        (bits::tally(freedom(board, victim)) - bits::tally(freedom(board, hunter)))
            * weights.mobility,
        8,
    )
}

/// The number of squares in a set, as the count of the predicate it stands for.
fn count(found: u64, Ghost(p): Ghost<spec_fn(int) -> bool>) -> (n: i64)
    requires
        forall|s: int| 0 <= s < 64 ==> #[trigger] bits::on(found, s) == p(s),
    ensures
        n == bits::tally(p),
        0 <= n <= 64,
{
    proof {
        let q = bits::member(found);
        assert forall|s: int| 0 <= s < 64 implies #[trigger] q(s) == p(s) by {
            assert(bits::on(found, s) == p(s));
        }
        bits::lemma_tally_same(q, p, 64);
        bits::lemma_tally_bound(p, 64);
    }
    found.count_ones() as i64
}

/// A small count times a weight.
fn scale(n: i64, weight: i32) -> (product: i64)
    requires
        -200_000 <= n <= 200_000,
    ensures
        product == n * weight,
        -(200_000 * 0x8000_0000) <= product <= 200_000 * 0x8000_0000,
{
    proof {
        lemma_scale(n as int, weight as int, 200_000, 0x8000_0000);
    }
    n * (weight as i64)
}

proof fn lemma_scale(n: int, w: int, n_bound: int, w_bound: int)
    requires
        -n_bound <= n <= n_bound,
        -w_bound <= w <= w_bound,
    ensures
        -(n_bound * w_bound) <= n * w <= n_bound * w_bound,
{
    assert(-(n_bound * w_bound) <= n * w <= n_bound * w_bound) by (nonlinear_arith)
        requires
            -n_bound <= n <= n_bound,
            -w_bound <= w <= w_bound,
    ;
}

/// Every square attacked by `color`, seen through `occupied`.
///
/// Pawns contribute their capture squares only, which is what matters for
/// deciding whether a piece is safe to leave standing somewhere.
pub fn attack_map(board: &Board, color: Color, occupied: u64) -> (map: u64)
    ensures
        bits::holds_just(map, |s: int| board.attacked(color, occupied, s)),
{
    let side: u64 = board.by_color(color);
    let mut map: u64 = 0;
    let mut rest: u64 = side;
    proof {
        bits::lemma_empty(0);
    }
    while rest != 0
        invariant
            side == board.side(color),
            forall|s: int| #[trigger] bits::on(rest, s) ==> bits::on(side, s),
            forall|t: int|
                #![trigger bits::on(map, t)]
                bits::on(map, t) <==> 0 <= t < 64 && exists|s: int| #[trigger]
                    bits::on(side, s) && !bits::on(rest, s) && chess::reaches(
                        board.role_on(s),
                        color,
                        s,
                        t,
                        occupied,
                    ),
        decreases rest,
    {
        let (square, next) = bits::pop_lowest(rest);
        let ghost before = map;
        let ghost remaining = rest;
        proof {
            assert(bits::on(side, square as int));
            assert(board.taken(square as int));
        }
        if let Some(role) = board.role_at(square) {
            let found: u64 = attacks::attacks(square, role, color, occupied);
            proof {
                bits::lemma_ops(map, found);
            }
            map = map | found;
            rest = next;
            proof {
                assert forall|t: int|
                    #![trigger bits::on(map, t)]
                    bits::on(map, t) <==> 0 <= t < 64 && exists|s: int| #[trigger]
                        bits::on(side, s) && !bits::on(rest, s) && chess::reaches(
                            board.role_on(s),
                            color,
                            s,
                            t,
                            occupied,
                        ) by {
                    if bits::on(before, t) {
                        let s = choose|s: int| #[trigger]
                            bits::on(side, s) && !bits::on(remaining, s) && chess::reaches(
                                board.role_on(s),
                                color,
                                s,
                                t,
                                occupied,
                            );
                        assert(bits::on(side, s) && !bits::on(rest, s));
                    }
                    if bits::on(found, t) {
                        assert(bits::on(side, square as int) && !bits::on(rest, square as int));
                    }
                    if 0 <= t < 64 && exists|s: int| #[trigger]
                        bits::on(side, s) && !bits::on(rest, s) && chess::reaches(
                            board.role_on(s),
                            color,
                            s,
                            t,
                            occupied,
                        ) {
                        let s = choose|s: int| #[trigger]
                            bits::on(side, s) && !bits::on(rest, s) && chess::reaches(
                                board.role_on(s),
                                color,
                                s,
                                t,
                                occupied,
                            );
                        if s == square {
                            assert(bits::on(found, t));
                        } else {
                            assert(!bits::on(remaining, s));
                            assert(bits::on(before, t));
                        }
                    }
                }
            }
        }
    }
    proof {
        let p = |s: int| board.attacked(color, occupied, s);
        assert forall|t: int| #[trigger] bits::on(map, t) == (0 <= t < 64 && p(t)) by {
            if 0 <= t < 64 && board.attacked(color, occupied, t) {
                let s = choose|s: int| #[trigger]
                    bits::on(board.side(color), s) && chess::reaches(
                        board.role_on(s),
                        color,
                        s,
                        t,
                        occupied,
                    );
                assert(bits::on(side, s) && !bits::on(rest, s));
            }
        }
    }
    map
}

/// Whether `color` has a pawn, a rook or a queen.
fn holds_major(board: &Board, color: Color) -> (held: bool)
    ensures
        held == has_major(*board, color),
{
    let ours: u64 = board.by_color(color);
    let majors: u64 = board.pawns | board.rooks | board.queens;
    let found: u64 = majors & ours;
    proof {
        bits::lemma_ops(board.pawns, board.rooks);
        bits::lemma_ops(board.pawns | board.rooks, board.queens);
        bits::lemma_ops(majors, ours);
        bits::lemma_empty(found);
        if found != 0 {
            let s = choose|s: int| bits::on(found, s);
            assert(bits::on(board.side(color), s));
        }
        if has_major(*board, color) {
            let s = choose|s: int|
                {
                    &&& #[trigger] bits::on(board.side(color), s)
                    &&& bits::on(board.pawns, s) || bits::on(board.rooks, s) || bits::on(
                        board.queens,
                        s,
                    )
                };
            assert(bits::on(found, s));
        }
    }
    found != 0
}

/// How many pieces of a role a player has.
fn number(board: &Board, role: Role, color: Color) -> (n: i64)
    ensures
        n == holding(*board, role, color),
        0 <= n <= 64,
{
    let kind: u64 = board.by_role(role);
    let ours: u64 = board.by_color(color);
    proof {
        bits::lemma_ops(kind, ours);
    }
    count(kind & ours, Ghost(board.mine(role, color)))
}

/// Whether `color` could force mate against a lone king.
///
/// Two knights are excluded: that mate cannot be forced. It can still be
/// reached with cooperation, which is what [`can_ever_mate`] reports.
pub fn can_force_mate(board: &Board, color: Color) -> (can: bool)
    ensures
        can == mate_is_forcible(*board, color),
{
    if holds_major(board, color) {
        return true;
    }
    let bishops: i64 = number(board, Role::Bishop, color);
    let knights: i64 = number(board, Role::Knight, color);
    bishops >= 2 || (bishops >= 1 && knights >= 1)
}

/// Whether `color` holds material that could mate at all, given a cooperative
/// opponent. This engine is nothing if not cooperative.
pub fn can_ever_mate(board: &Board, color: Color) -> (can: bool)
    ensures
        can == mate_is_possible(*board, color),
{
    if holds_major(board, color) {
        return true;
    }
    let ours: u64 = board.by_color(color);
    let light: u64 = board.bishops | board.knights;
    proof {
        bits::lemma_ops(board.bishops, board.knights);
        bits::lemma_ops(light, ours);
    }
    count(light & ours, Ghost(minors(*board, color))) >= 2
}

/// Total centipawn material for `color`, kings excluded.
pub fn material(board: &Board, color: Color) -> (total: i32)
    ensures
        total == wealth(*board, color),
        0 <= total <= 137_600,
{
    let total: i64 = 100 * number(board, Role::Pawn, color) + 320 * number(
        board,
        Role::Knight,
        color,
    ) + 330 * number(board, Role::Bishop, color) + 500 * number(board, Role::Rook, color) + 900
        * number(board, Role::Queen, color);
    total as i32
}

/// The distance between two small numbers.
fn distance(a: i64, b: i64) -> (d: i64)
    requires
        0 <= a < 64,
        0 <= b < 64,
    ensures
        d == chess::gap(a as int, b as int),
{
    if a < b {
        b - a
    } else {
        a - b
    }
}

fn file(square: u8) -> (f: i64)
    ensures
        f == chess::file_of(square as int),
        0 <= f < 8,
{
    (square % 8) as i64
}

fn rank(square: u8) -> (r: i64)
    requires
        square < 64,
    ensures
        r == chess::rank_of(square as int),
        0 <= r < 8,
{
    (square / 8) as i64
}

/// Number of king moves between two squares.
fn king_distance(a: u8, b: u8) -> (d: i64)
    requires
        a < 64,
        b < 64,
    ensures
        d == chess::king_steps(a as int, b as int),
        0 <= d <= 7,
{
    let files: i64 = distance(file(a), file(b));
    let ranks: i64 = distance(rank(a), rank(b));
    if files < ranks {
        ranks
    } else {
        files
    }
}

/// The distance of a file or a rank from the middle two.
fn off_centre(line: i64) -> (d: i64)
    requires
        0 <= line < 8,
    ensures
        d == chess::smaller(chess::gap(line as int, 3), chess::gap(line as int, 4)),
        0 <= d <= 3,
{
    let a: i64 = distance(line, 3);
    let b: i64 = distance(line, 4);
    if a < b {
        a
    } else {
        b
    }
}

/// How far a square is from the four centre squares, in king moves along the
/// file plus along the rank. Zero in the centre, six in a corner.
fn centre_distance(square: u8) -> (d: i64)
    requires
        square < 64,
    ensures
        d == from_centre(square as int),
        0 <= d <= 6,
{
    off_centre(file(square)) + off_centre(rank(square))
}

/// A rank as a player counts it.
fn relative_rank(color: Color, rank: i64) -> (r: i64)
    requires
        0 <= rank < 8,
    ensures
        r == color.own_rank(rank as int),
        0 <= r < 8,
{
    match color {
        Color::White => rank,
        Color::Black => 7 - rank,
    }
}

/// How much trouble `defender`'s king is in, from the squares that the other
/// player attacks.
///
/// Positive means the king is in danger, which the victim wants and the hunter
/// does not.
pub fn king_danger(
    board: &Board,
    defender: Color,
    attacker_attacks: u64,
    defender_in_check: bool,
    weights: &Weights,
) -> (score: i64)
    ensures
        score == danger_under(
            *board,
            defender,
            bits::member(attacker_attacks),
            defender_in_check,
            *weights,
        ),
        -0x10_0000_0000_0000 <= score <= 0x10_0000_0000_0000,
{
    let king: u8 = match board.king_of(defender) {
        None => {
            return 0;
        },
        Some(square) => square,
    };
    let attacker = defender.other();
    if !can_ever_mate(board, attacker) {
        // No danger to measure. A king cannot be hunted down by an opponent
        // with nothing to hunt with, and pretending otherwise would stop the
        // mating king below from ever daring to walk up the board.
        return 0;
    }
    let around: u64 = attacks::king_attacks(king);
    let here: u64 = bits::only(king);
    let ring: u64 = around | here;
    let ours: u64 = board.by_color(defender);
    proof {
        bits::lemma_ops(around, here);
        bits::lemma_ops(ring, attacker_attacks);
        bits::lemma_ops(ring, board.pawns);
        bits::lemma_ops(ring & board.pawns, ours);
    }
    let hits: i64 = count(
        ring & attacker_attacks,
        Ghost(ring_hits(king as int, bits::member(attacker_attacks))),
    );
    let pawns: i64 = count(
        ring & board.pawns & ours,
        Ghost(shelter(*board, king as int, defender)),
    );
    let mut score: i64 = scale(hits, weights.king_ring_attack) - scale(pawns, weights.king_shelter);

    if material(board, defender) <= 100 && can_force_mate(board, attacker) {
        // Nothing left to defend with. Mate now comes from technique rather
        // than from an attack: drive this king to the edge and march the other
        // king up to help. Both engines want to know this, one so it can
        // finish the job and one so it can walk into it.
        score = score + scale(centre_distance(king), weights.mop_up_edge);
        if let Some(other) = board.king_of(attacker) {
            score = score + scale(7 - king_distance(king, other), weights.mop_up_kings);
        }
    } else {
        // A king that has left home, and left the safety of the flank, is a
        // king that can be hunted down.
        score = score + scale(relative_rank(defender, rank(king)), weights.king_advance);
        score = score + scale(3 - off_centre(file(king)), weights.king_centre);
    }
    if defender_in_check {
        score = score + weights.in_check as i64;
    }
    // Mate needs the attacking pieces nearby, so reward them closing in.
    score + scale(proximity(board, attacker, king), weights.hunter_proximity)
}

/// How close a player's pieces other than pawns stand to a square.
fn proximity(board: &Board, color: Color, square: u8) -> (sum: i64)
    requires
        square < 64,
    ensures
        sum == bits::total(board.side(color), closeness(*board, square as int)),
        0 <= sum <= 448,
{
    let side: u64 = board.by_color(color);
    let ghost near = closeness(*board, square as int);
    let mut sum: i64 = 0;
    let mut rest: u64 = side;
    proof {
        assert forall|s: int| 0 <= s < 64 && bits::on(side, s) implies 0 <= #[trigger] near(s)
            <= 7 by {}
        lemma_total_within(side, near, 7, 64);
    }
    while rest != 0
        invariant
            square < 64,
            near == closeness(*board, square as int),
            sum + bits::total(rest, near) == bits::total(side, near),
            bits::total(side, near) <= 448,
            0 <= sum,
            forall|s: int| 0 <= s < 64 ==> 0 <= #[trigger] near(s) <= 7,
        decreases rest,
    {
        let (from, next) = bits::pop_lowest(rest);
        proof {
            bits::lemma_total_pop(rest, next, near, from as int, 64);
            lemma_total_within(next, near, 7, 64);
        }
        if !bits::contains(board.pawns, from) {
            sum = sum + (7 - king_distance(from, square));
        }
        rest = next;
    }
    proof {
        bits::lemma_total_empty(near, 64);
    }
    sum
}

/// A sum of terms from 0 to `bound`.
proof fn lemma_total_within(found: u64, f: spec_fn(int) -> int, bound: int, n: nat)
    requires
        0 <= bound,
        forall|s: int| 0 <= s < 64 && bits::on(found, s) ==> 0 <= #[trigger] f(s) <= bound,
        n <= 64,
    ensures
        0 <= bits::total_below(found, f, n) <= n * bound,
    decreases n,
{
    if n > 0 {
        lemma_total_within(found, f, bound, (n - 1) as nat);
        assert((n - 1) * bound + bound == n * bound) by (nonlinear_arith);
        if bits::on(found, n - 1) {
            assert(0 <= f(n - 1) <= bound);
        }
    }
}

/// The value `owner` is leaving on the table for the other player to take.
fn gifts(
    board: &Board,
    owner: Color,
    attacker_attacks: u64,
    owner_attacks: u64,
    weights: &Weights,
) -> (score: i64)
    requires
        forall|s: int|
            #![trigger bits::on(attacker_attacks, s)]
            bits::on(attacker_attacks, s) == (0 <= s < 64 && board.attacked(
                owner.opposite(),
                board.everything(),
                s,
            )),
        forall|s: int|
            #![trigger bits::on(owner_attacks, s)]
            bits::on(owner_attacks, s) == (0 <= s < 64 && board.attacked(
                owner,
                board.everything(),
                s,
            )),
    ensures
        score == offered(*board, owner, *weights),
        -0x10_0000_0000_0000 <= score <= 0x10_0000_0000_0000,
{
    let side: u64 = board.by_color(owner);
    let ghost value = offer(*board, owner, *weights);
    let mut score: i64 = 0;
    let mut rest: u64 = side;
    let mut steps: u8 = 0;
    while rest != 0
        invariant
            side == board.side(owner),
            value == offer(*board, owner, *weights),
            forall|s: int| #[trigger] bits::on(rest, s) ==> bits::on(side, s),
            score + bits::total(rest, value) == bits::total(side, value),
            forall|s: int|
                #![trigger bits::on(attacker_attacks, s)]
                bits::on(attacker_attacks, s) == (0 <= s < 64 && board.attacked(
                    owner.opposite(),
                    board.everything(),
                    s,
                )),
            forall|s: int|
                #![trigger bits::on(owner_attacks, s)]
                bits::on(owner_attacks, s) == (0 <= s < 64 && board.attacked(
                    owner,
                    board.everything(),
                    s,
                )),
            forall|s: int| 0 <= s < steps ==> !bits::on(rest, s),
            steps <= 64,
            -(steps * 0x1000_0000_0000) <= score <= steps * 0x1000_0000_0000,
        decreases rest,
    {
        let (square, next) = bits::pop_lowest(rest);
        proof {
            bits::lemma_total_pop(rest, next, value, square as int, 64);
            assert(bits::on(side, square as int));
            assert(board.taken(square as int));
        }
        if bits::contains(attacker_attacks, square) && !bits::contains(board.kings, square) {
            if let Some(role) = board.role_at(square) {
                // Undefended is a present; defended is merely an invitation to trade.
                let percentage: i32 = if bits::contains(owner_attacks, square) {
                    weights.attacked
                } else {
                    weights.hanging
                };
                score = score + scale(piece_value(role) as i64, percentage) / 100;
            }
        }
        rest = next;
        steps = square + 1;
    }
    proof {
        bits::lemma_total_empty(value, 64);
    }
    score
}

/// Pawns of `color` on the sixth rank or beyond, counted from their own side.
fn advanced_pawns(board: &Board, color: Color) -> (n: i64)
    ensures
        n == bits::tally(far_pawns(*board, color)),
        0 <= n <= 64,
{
    let ours: u64 = board.by_color(color);
    let far: u64 = match color {
        Color::White => 0xffff_ff00_0000_0000,
        Color::Black => 0x0000_0000_00ff_ffff,
    };
    proof {
        bits::lemma_ops(board.pawns, ours);
        bits::lemma_ops(board.pawns & ours, far);
        assert forall|s: int| 0 <= s < 64 implies #[trigger] bits::on(far, s) == (color.own_rank(
            chess::rank_of(s),
        ) >= 5) by {
            let k = s as u64;
            assert((0xffff_ff00_0000_0000u64 >> k) & 1 == 1 <==> k >= 40) by (bit_vector)
                requires
                    k < 64,
            ;
            assert((0x0000_0000_00ff_ffffu64 >> k) & 1 == 1 <==> k < 24) by (bit_vector)
                requires
                    k < 64,
            ;
        }
    }
    count(board.pawns & ours & far, Ghost(far_pawns(*board, color)))
}

/// A count of at most `bound` times a weight.
proof fn lemma_times(n: int, w: int, bound: int)
    requires
        -bound <= n <= bound,
    ensures
        magnitude(n * w) <= bound * magnitude(w),
{
    assert(magnitude(n * w) <= bound * magnitude(w)) by (nonlinear_arith)
        requires
            -bound <= n <= bound,
    ;
}

proof fn lemma_wealth_bound(board: Board, color: Color)
    ensures
        0 <= wealth(board, color) <= 137_600,
{
    bits::lemma_tally_bound(board.mine(Role::Pawn, color), 64);
    bits::lemma_tally_bound(board.mine(Role::Knight, color), 64);
    bits::lemma_tally_bound(board.mine(Role::Bishop, color), 64);
    bits::lemma_tally_bound(board.mine(Role::Rook, color), 64);
    bits::lemma_tally_bound(board.mine(Role::Queen, color), 64);
}

/// The danger depends only on which squares of the board are under attack.
proof fn lemma_danger_same(
    board: Board,
    defender: Color,
    p: spec_fn(int) -> bool,
    q: spec_fn(int) -> bool,
    checked: bool,
    w: Weights,
)
    requires
        forall|s: int| 0 <= s < 64 ==> #[trigger] p(s) == q(s),
    ensures
        danger_under(board, defender, p, checked, w) == danger_under(
            board,
            defender,
            q,
            checked,
            w,
        ),
{
    if let Some(square) = board.king_square(defender) {
        let king = square as int;
        let a = ring_hits(king, p);
        let b = ring_hits(king, q);
        assert forall|s: int| 0 <= s < 64 implies #[trigger] a(s) == b(s) by {
            assert(p(s) == q(s));
        }
        bits::lemma_tally_same(a, b, 64);
    }
}

/// A check adds exactly its weight to the danger of a king, and a player who
/// cannot mate puts the other king in no danger at all, whatever they attack.
pub proof fn law_check_adds_its_weight(
    board: Board,
    defender: Color,
    hit: spec_fn(int) -> bool,
    w: Weights,
)
    requires
        board.king_square(defender) is Some,
    ensures
        mate_is_possible(board, defender.opposite()) ==> danger_under(
            board,
            defender,
            hit,
            true,
            w,
        ) - danger_under(board, defender, hit, false, w) == w.in_check,
        !mate_is_possible(board, defender.opposite()) ==> forall|checked: bool|
            #[trigger] danger_under(board, defender, hit, checked, w) == 0,
{
}

/// The furthest from zero that the danger to a king can be.
pub open spec fn danger_reach(w: Weights) -> int {
    64 * magnitude(w.king_ring_attack as int) + magnitude(w.in_check as int) + 64 * magnitude(
        w.king_shelter as int,
    ) + 7 * magnitude(w.king_advance as int) + 3 * magnitude(w.king_centre as int) + 6 * magnitude(
        w.mop_up_edge as int,
    ) + 7 * magnitude(w.mop_up_kings as int) + 448 * magnitude(w.hunter_proximity as int)
}

proof fn lemma_exposure_bound(board: Board, king: int, defender: Color, w: Weights)
    requires
        0 <= king < 64,
        board.king_square(defender.opposite()) matches Some(k) ==> k < 64,
    ensures
        magnitude(exposure(board, king, defender, w)) <= 7 * magnitude(w.king_advance as int) + 3
            * magnitude(w.king_centre as int) + 6 * magnitude(w.mop_up_edge as int) + 7 * magnitude(
            w.mop_up_kings as int,
        ),
{
    lemma_times(from_centre(king), w.mop_up_edge as int, 6);
    if let Some(other) = board.king_square(defender.opposite()) {
        lemma_times(7 - chess::king_steps(king, other as int), w.mop_up_kings as int, 7);
    }
    lemma_times(defender.own_rank(chess::rank_of(king)), w.king_advance as int, 7);
    lemma_times(
        3 - chess::smaller(
            chess::gap(chess::file_of(king), 3),
            chess::gap(chess::file_of(king), 4),
        ),
        w.king_centre as int,
        3,
    );
}

/// Five terms are together no further from zero than their bounds add up to.
proof fn lemma_five(a: int, b: int, c: int, d: int, e: int)
    ensures
        magnitude(a - b + c + d + e) <= magnitude(a) + magnitude(b) + magnitude(c) + magnitude(d)
            + magnitude(e),
{
}

proof fn lemma_danger_bound(board: Board, defender: Color, checked: bool, w: Weights)
    requires
        board.king_square(defender) matches Some(k) ==> k < 64,
        board.king_square(defender.opposite()) matches Some(k) ==> k < 64,
    ensures
        magnitude(danger(board, defender, checked, w)) <= danger_reach(w),
{
    let attacker = defender.opposite();
    if let Some(square) = board.king_square(defender) {
        let king = square as int;
        let hit = attacked_by(board, attacker);
        let hits = bits::tally(ring_hits(king, hit)) as int;
        let pawns = bits::tally(shelter(board, king, defender)) as int;
        bits::lemma_tally_bound(ring_hits(king, hit), 64);
        bits::lemma_tally_bound(shelter(board, king, defender), 64);
        lemma_times(hits, w.king_ring_attack as int, 64);
        lemma_times(pawns, w.king_shelter as int, 64);
        let near = closeness(board, king);
        assert forall|s: int| 0 <= s < 64 && bits::on(board.side(attacker), s) implies 0
            <= #[trigger] near(s) <= 7 by {}
        lemma_total_within(board.side(attacker), near, 7, 64);
        let hunters = bits::total(board.side(attacker), near);
        lemma_times(hunters, w.hunter_proximity as int, 448);
        lemma_exposure_bound(board, king, defender, w);
        lemma_five(
            hits * w.king_ring_attack,
            pawns * w.king_shelter,
            exposure(board, king, defender, w),
            if checked {
                w.in_check as int
            } else {
                0
            },
            hunters * w.hunter_proximity,
        );
    }
}

proof fn lemma_offered_bound(board: Board, owner: Color, w: Weights)
    ensures
        magnitude(offered(board, owner, w)) <= 576 * magnitude(w.hanging as int) + 576 * magnitude(
            w.attacked as int,
        ),
{
    let value = offer(board, owner, w);
    let bound = 9 * (magnitude(w.hanging as int) + magnitude(w.attacked as int));
    assert forall|s: int| 0 <= s < 64 && bits::on(board.side(owner), s) implies -bound
        <= #[trigger] value(s) <= bound by {
        lemma_times(worth(board.role_on(s)), w.hanging as int, 900);
        lemma_times(worth(board.role_on(s)), w.attacked as int, 900);
    }
    bits::lemma_total_bound(board.side(owner), value, bound, 64);
}

/// A king's square is a square.
proof fn lemma_king_square(board: Board, color: Color)
    ensures
        board.king_square(color) matches Some(k) ==> k < 64,
{
    if exists|s: int| board.sole_king(color, s) {
        let s = choose|s: int| board.sole_king(color, s);
        assert(board.mine(Role::King, color)(s));
    }
}

/// Eight terms within bounds add up to a sum within the sum of the bounds.
proof fn lemma_add_up(x: Seq<int>, b: Seq<int>)
    requires
        x.len() == 8,
        b.len() == 8,
        forall|i: int| 0 <= i < 8 ==> -b[i] <= #[trigger] x[i] <= b[i],
    ensures
        magnitude(x[0] - x[1] + x[2] - x[3] + x[4] - x[5] + x[6] - x[7]) <= b[0] + b[1] + b[2]
            + b[3] + b[4] + b[5] + b[6] + b[7],
{
    assert(-b[0] <= x[0] <= b[0] && -b[1] <= x[1] <= b[1] && -b[2] <= x[2] <= b[2]);
    assert(-b[3] <= x[3] <= b[3] && -b[4] <= x[4] <= b[4] && -b[5] <= x[5] <= b[5]);
    assert(-b[6] <= x[6] <= b[6] && -b[7] <= x[7] <= b[7]);
}

proof fn lemma_gain_bound(board: Board, victim: Color, weights: Weights)
    ensures
        magnitude(
            toward_zero(
                (wealth(board, victim.opposite()) - wealth(board, victim)) * weights.material,
                100,
            ),
        ) <= 1376 * magnitude(weights.material as int),
{
    lemma_wealth_bound(board, victim);
    lemma_wealth_bound(board, victim.opposite());
    lemma_times(
        wealth(board, victim.opposite()) - wealth(board, victim),
        weights.material as int,
        137_600,
    );
}

proof fn lemma_pawns_bound(board: Board, victim: Color, weights: Weights)
    ensures
        magnitude(promotion_terms(board, victim, weights)) <= 64 * magnitude(
            weights.promotion_risk as int,
        ) + 64 * magnitude(weights.enemy_promotion as int),
{
    let x = far_pawns(board, victim);
    let y = far_pawns(board, victim.opposite());
    bits::lemma_tally_bound(x, 64);
    bits::lemma_tally_bound(y, 64);
    lemma_times(far_pawn_lead(board, victim), weights.promotion_risk as int, 64);
    lemma_times(far_pawn_lead(board, victim), weights.enemy_promotion as int, 64);
}

proof fn lemma_freedom_bound(board: Board, victim: Color, weights: Weights)
    ensures
        magnitude(
            toward_zero(
                (bits::tally(freedom(board, victim)) - bits::tally(
                    freedom(board, victim.opposite()),
                )) * weights.mobility,
                8,
            ),
        ) <= 8 * magnitude(weights.mobility as int),
{
    let x = freedom(board, victim);
    let y = freedom(board, victim.opposite());
    bits::lemma_tally_bound(x, 64);
    bits::lemma_tally_bound(y, 64);
    lemma_times(bits::tally(x) - bits::tally(y), weights.mobility as int, 64);
}

/// No score is further from zero than the weights' reach.
pub proof fn lemma_reach(position: Position, victim: Color, weights: Weights)
    ensures
        magnitude(evaluation(position, victim, weights)) <= weights.reach(),
{
    let board = position.board;
    let hunter = victim.opposite();
    let check = position.in_check();
    lemma_gain_bound(board, victim, weights);
    lemma_king_square(board, victim);
    lemma_king_square(board, hunter);
    lemma_danger_bound(board, victim, check && position.turn == victim, weights);
    lemma_danger_bound(board, hunter, check && position.turn == hunter, weights);
    lemma_offered_bound(board, victim, weights);
    lemma_offered_bound(board, hunter, weights);
    lemma_pawns_bound(board, victim, weights);
    lemma_freedom_bound(board, victim, weights);
    let gain = toward_zero(
        (wealth(board, hunter) - wealth(board, victim)) * weights.material,
        100,
    );
    let moves = toward_zero(
        (bits::tally(freedom(board, victim)) - bits::tally(freedom(board, hunter)))
            * weights.mobility,
        8,
    );
    let x = seq![
        gain,
        draw_terms(board, victim, weights),
        danger(board, victim, check && position.turn == victim, weights),
        danger(board, hunter, check && position.turn == hunter, weights),
        offered(board, victim, weights),
        offered(board, hunter, weights),
        promotion_terms(board, victim, weights),
        moves,
    ];
    let b = seq![
        1376 * magnitude(weights.material as int),
        magnitude(weights.no_forced_mate as int) + magnitude(weights.no_mate_material as int)
            + magnitude(weights.stalemate_risk as int),
        danger_reach(weights),
        danger_reach(weights),
        576 * magnitude(weights.hanging as int) + 576 * magnitude(weights.attacked as int),
        576 * magnitude(weights.hanging as int) + 576 * magnitude(weights.attacked as int),
        64 * magnitude(weights.promotion_risk as int) + 64 * magnitude(
            weights.enemy_promotion as int,
        ),
        8 * magnitude(weights.mobility as int),
    ];
    lemma_draws_bound(board, victim, weights);
    assert forall|i: int| 0 <= i < 8 implies -b[i] <= #[trigger] x[i] <= b[i] by {
        assert(magnitude(x[i]) <= b[i]);
    }
    lemma_add_up(x, b);
}

proof fn lemma_draws_bound(board: Board, victim: Color, weights: Weights)
    ensures
        magnitude(draw_terms(board, victim, weights)) <= magnitude(weights.no_forced_mate as int)
            + magnitude(weights.no_mate_material as int) + magnitude(weights.stalemate_risk as int),
{
}

/// Score the position with the default weights.
///
/// Positive means `victim` is losing, which is the whole point.
pub fn evaluate(position: &Position, victim: Color) -> (score: i32)
    ensures
        score == evaluation(*position, victim, Weights::usual()),
{
    let weights = Weights::default();
    proof {
        lemma_reach(*position, victim, weights);
    }
    evaluate_with(position, victim, &weights)
}

/// Score the position with explicit weights.
///
/// The positional terms are measured for both players and subtracted, so the
/// score is antisymmetric: swapping the victim flips the sign. That matters for
/// two reasons. It stops the engine from building an attack it might blunder a
/// checkmate out of, and it means that malice can turn the same evaluation into
/// an ordinary chess engine simply by negating it.
///
/// The exceptions are the terms about draws, which are *not* mirrored: a draw
/// is a bad outcome for a player who wants to lose and for a player who wants
/// to win, so both should steer away from one.
///
/// The score has to fit an `i32`; with weights for which [`Weights::are_bounded`]
/// is true it does in every position.
pub fn evaluate_with(position: &Position, victim: Color, weights: &Weights) -> (score: i32)
    requires
        i32::MIN <= evaluation(*position, victim, *weights) <= i32::MAX,
    ensures
        score == evaluation(*position, victim, *weights),
{
    let score: i64 = evaluate_wide(position, victim, weights);
    score as i32
}

/// The score before it is narrowed.
#[verifier::spinoff_prover]
#[verifier::rlimit(60)]
fn evaluate_wide(position: &Position, victim: Color, weights: &Weights) -> (score: i64)
    ensures
        score == evaluation(*position, victim, *weights),
{
    let board = &position.board;
    let hunter = victim.other();
    let occupied: u64 = board.occupied();

    let victim_attacks: u64 = attack_map(board, victim, occupied);
    let hunter_attacks: u64 = attack_map(board, hunter, occupied);

    let gain: i64 = scale(
        (material(board, hunter) - material(board, victim)) as i64,
        weights.material,
    ) / 100;
    let in_check: bool = position.is_check();
    proof {
        lemma_danger_same(
            *board,
            victim,
            bits::member(hunter_attacks),
            attacked_by(*board, hunter),
            in_check && position.turn == victim,
            *weights,
        );
        lemma_danger_same(
            *board,
            hunter,
            bits::member(victim_attacks),
            attacked_by(*board, victim),
            in_check && position.turn == hunter,
            *weights,
        );
    }
    let mine: i64 = king_danger(
        board,
        victim,
        hunter_attacks,
        in_check && position.turn == victim,
        weights,
    );
    let theirs: i64 = king_danger(
        board,
        hunter,
        victim_attacks,
        in_check && position.turn == hunter,
        weights,
    );
    let given: i64 = gifts(board, victim, hunter_attacks, victim_attacks, weights);
    let taken: i64 = gifts(board, hunter, victim_attacks, hunter_attacks, weights);

    // Promotion cuts both ways: our new queen would be an embarrassment,
    // theirs is another instrument of our defeat.
    let lead: i64 = advanced_pawns(board, hunter) - advanced_pawns(board, victim);
    let pawns: i64 = scale(lead, weights.enemy_promotion) + scale(lead, weights.promotion_risk);

    // Passive pieces, but the stalemate term stops this going too far.
    let moves: i64 = scale(
        mobility(board, victim, victim_attacks) - mobility(board, hunter, hunter_attacks),
        weights.mobility,
    ) / 8;

    gain - draw_penalties(board, victim, weights) + mine - theirs + given - taken + pawns - moves
}

/// What counts against a position that is heading for a draw.
fn draw_penalties(board: &Board, victim: Color, weights: &Weights) -> (penalty: i64)
    ensures
        penalty == draw_terms(*board, victim, *weights),
        -0x1_0000_0000 <= penalty <= 0x1_0000_0000,
{
    let hunter = victim.other();
    // Someone has to be able to finish the job. Negated, this reads as an
    // ordinary engine's wish to strip its opponent of the means to win.
    let unfinishable: i64 = if !can_ever_mate(board, hunter) {
        weights.no_mate_material as i64
    } else if !can_force_mate(board, hunter) {
        weights.no_forced_mate as i64
    } else {
        0
    };
    // A player with nothing left is a player about to be stalemated.
    if number(board, Role::Pawn, victim) == 0 && material(board, victim) <= 400 {
        unfinishable + weights.stalemate_risk as i64
    } else {
        unfinishable
    }
}

/// How many squares a player attacks and does not stand on.
fn mobility(board: &Board, color: Color, attacked: u64) -> (n: i64)
    requires
        forall|s: int|
            #![trigger bits::on(attacked, s)]
            bits::on(attacked, s) == (0 <= s < 64 && board.attacked(color, board.everything(), s)),
    ensures
        n == bits::tally(freedom(*board, color)),
        0 <= n <= 64,
{
    let free: u64 = !board.by_color(color);
    proof {
        bits::lemma_not(board.side(color));
        bits::lemma_ops(attacked, free);
    }
    count(attacked & free, Ghost(freedom(*board, color)))
}

/// Swapping which player is trying to lose flips the score, the terms about
/// draws apart. Where either player could force mate and has pawns or enough
/// material, no such term applies.
pub proof fn law_swapping_the_victim_flips_the_score(
    position: Position,
    victim: Color,
    weights: Weights,
)
    ensures
        evaluation(position, victim, weights) + draw_terms(position.board, victim, weights) == -(
        evaluation(position, victim.opposite(), weights) + draw_terms(
            position.board,
            victim.opposite(),
            weights,
        )),
        minors_apart(position.board) && far_from_a_draw(position.board, victim) && far_from_a_draw(
            position.board,
            victim.opposite(),
        ) ==> evaluation(position, victim, weights) == -evaluation(
            position,
            victim.opposite(),
            weights,
        ),
{
    let board = position.board;
    let hunter = victim.opposite();
    assert(hunter.opposite() == victim);
    let a = wealth(board, hunter) - wealth(board, victim);
    let m = weights.material as int;
    assert(a * m == -((-a) * m)) by (nonlinear_arith);
    let f = bits::tally(freedom(board, victim)) - bits::tally(freedom(board, hunter));
    let w = weights.mobility as int;
    assert(f * w == -((-f) * w)) by (nonlinear_arith);
    if minors_apart(board) {
        lemma_minors(board, victim, 64);
        lemma_minors(board, hunter, 64);
    }
    let lead = far_pawn_lead(board, victim);
    assert(far_pawn_lead(board, hunter) == -lead);
    let risk = weights.promotion_risk as int;
    let gain = weights.enemy_promotion as int;
    assert((-lead) * risk == -(lead * risk)) by (nonlinear_arith);
    assert((-lead) * gain == -(lead * gain)) by (nonlinear_arith);
}

/// Bishops and knights that are apart are counted one by one.
pub(crate) proof fn lemma_minors(board: Board, color: Color, n: nat)
    requires
        minors_apart(board),
        n <= 64,
    ensures
        bits::tally_below(minors(board, color), n) == bits::tally_below(
            board.mine(Role::Bishop, color),
            n,
        ) + bits::tally_below(board.mine(Role::Knight, color), n),
    decreases n,
{
    if n > 0 {
        lemma_minors(board, color, (n - 1) as nat);
        let s = n - 1;
        assert(!(bits::on(board.bishops, s) && bits::on(board.knights, s)));
    }
}

} // verus!
