//! Which squares a piece attacks.
//!
//! The tables are those of [`shakmaty::attacks`]; what they hold is the geometry
//! of [`crate::chess::reaches`].

use vstd::prelude::*;

use crate::bits;
use crate::chess;
use crate::chess::{Board, Color, Position, Role};

verus! {

/// [`shakmaty::attacks::pawn_attacks`] looks up the attacks of a pawn: the two
/// squares diagonally ahead of it that are on the board.
#[verifier::external_body]
fn pawn_attacks(white: bool, square: u8) -> (found: u64)
    requires
        square < 64,
    ensures
        white ==> bits::holds_just(
            found,
            (|s: int| chess::pawn_reaches(Color::White, square as int, s)),
        ),
        !white ==> bits::holds_just(
            found,
            (|s: int| chess::pawn_reaches(Color::Black, square as int, s)),
        ),
{
    shakmaty::attacks::pawn_attacks(
        shakmaty::Color::from_white(white),
        shakmaty::Square::new(square as u32),
    ).0
}

/// [`shakmaty::attacks::knight_attacks`] looks up the attacks of a knight: the
/// squares of the board one step along and two steps across.
#[verifier::external_body]
fn knight_attacks(square: u8) -> (found: u64)
    requires
        square < 64,
    ensures
        bits::holds_just(found, (|s: int| chess::knight_reaches(square as int, s))),
{
    shakmaty::attacks::knight_attacks(shakmaty::Square::new(square as u32)).0
}

/// [`shakmaty::attacks::king_attacks`] looks up the attacks of a king: the
/// squares of the board one step away in any direction.
#[verifier::external_body]
pub(crate) fn king_attacks(square: u8) -> (found: u64)
    requires
        square < 64,
    ensures
        bits::holds_just(found, (|s: int| chess::king_reaches(square as int, s))),
{
    shakmaty::attacks::king_attacks(shakmaty::Square::new(square as u32)).0
}

/// [`shakmaty::attacks::bishop_attacks`] looks up the attacks of a bishop among
/// occupied squares: along each diagonal, up to and with the first one occupied.
#[verifier::external_body]
fn bishop_attacks(square: u8, occupied: u64) -> (found: u64)
    requires
        square < 64,
    ensures
        bits::holds_just(found, (|s: int| chess::bishop_reaches(square as int, s, occupied))),
{
    shakmaty::attacks::bishop_attacks(
        shakmaty::Square::new(square as u32),
        shakmaty::Bitboard(occupied),
    ).0
}

/// [`shakmaty::attacks::rook_attacks`] looks up the attacks of a rook among
/// occupied squares: along its rank and file, up to and with the first one
/// occupied.
#[verifier::external_body]
fn rook_attacks(square: u8, occupied: u64) -> (found: u64)
    requires
        square < 64,
    ensures
        bits::holds_just(found, (|s: int| chess::rook_reaches(square as int, s, occupied))),
{
    shakmaty::attacks::rook_attacks(
        shakmaty::Square::new(square as u32),
        shakmaty::Bitboard(occupied),
    ).0
}

/// The squares that a piece attacks, seen through `occupied`.
pub fn attacks(square: u8, role: Role, color: Color, occupied: u64) -> (found: u64)
    requires
        square < 64,
    ensures
        forall|s: int|
            #![trigger bits::on(found, s)]
            bits::on(found, s) <==> 0 <= s < 64 && chess::reaches(
                role,
                color,
                square as int,
                s,
                occupied,
            ),
{
    match role {
        Role::Pawn => pawn_attacks(color == Color::White, square),
        Role::Knight => knight_attacks(square),
        Role::Bishop => bishop_attacks(square, occupied),
        Role::Rook => rook_attacks(square, occupied),
        Role::Queen => {
            let lines: u64 = rook_attacks(square, occupied);
            let diagonals: u64 = bishop_attacks(square, occupied);
            proof {
                bits::lemma_ops(lines, diagonals);
            }
            lines | diagonals
        },
        Role::King => king_attacks(square),
    }
}

impl Board {
    /// The pieces of `attacker` that bear on `square`, seen through `occupied`.
    pub fn attacks_to(&self, square: u8, attacker: Color, occupied: u64) -> (found: u64)
        requires
            square < 64,
        ensures
            forall|s: int|
                #![trigger bits::on(found, s)]
                bits::on(found, s) <==> self.bears_on(attacker, square as int, occupied, s),
    {
        let lines: u64 = rook_attacks(square, occupied);
        let diagonals: u64 = bishop_attacks(square, occupied);
        let leaps: u64 = knight_attacks(square);
        let steps: u64 = king_attacks(square);
        let captures: u64 = pawn_attacks(attacker == Color::Black, square);
        let side: u64 = self.by_color(attacker);

        let a: u64 = lines & (self.rooks | self.queens);
        let b: u64 = diagonals & (self.bishops | self.queens);
        let c: u64 = leaps & self.knights;
        let d: u64 = steps & self.kings;
        let e: u64 = captures & self.pawns;
        proof {
            bits::lemma_ops(self.rooks, self.queens);
            bits::lemma_ops(lines, self.rooks | self.queens);
            bits::lemma_ops(self.bishops, self.queens);
            bits::lemma_ops(diagonals, self.bishops | self.queens);
            bits::lemma_ops(leaps, self.knights);
            bits::lemma_ops(steps, self.kings);
            bits::lemma_ops(captures, self.pawns);
            bits::lemma_ops(a, b);
            bits::lemma_ops(a | b, c);
            bits::lemma_ops(a | b | c, d);
            bits::lemma_ops(a | b | c | d, e);
            bits::lemma_ops(side, a | b | c | d | e);
        }
        side & (a | b | c | d | e)
    }
}

impl Position {
    /// Whether the king of the player to move is attacked.
    pub open spec fn in_check(self) -> bool {
        exists|king: int, s: int|
            {
                &&& #[trigger] self.board.mine(Role::King, self.turn)(king)
                &&& forall|lower: int|
                    lower < king ==> !(#[trigger] self.board.mine(Role::King, self.turn)(lower))
                &&& #[trigger] self.board.bears_on(
                    self.turn.opposite(),
                    king,
                    self.board.everything(),
                    s,
                )
            }
    }

    /// Whether the king of the player to move is attacked.
    pub fn is_check(&self) -> (check: bool)
        ensures
            check == self.in_check(),
    {
        let kings: u64 = self.board.kings & self.board.by_color(self.turn);
        let ghost mine = self.board.mine(Role::King, self.turn);
        proof {
            bits::lemma_ops(self.board.kings, self.board.side(self.turn));
            bits::lemma_empty(kings);
            assert forall|t: int| #[trigger] mine(t) == bits::on(kings, t) by {}
        }
        if kings == 0 {
            return false;
        }
        let (king, _) = bits::pop_lowest(kings);
        let occupied: u64 = self.board.occupied();
        let checkers: u64 = self.board.attacks_to(king, self.turn.other(), occupied);
        proof {
            bits::lemma_empty(checkers);
            assert(mine(king as int));
            assert forall|lower: int| lower < king implies !(#[trigger] mine(lower)) by {}
            if checkers != 0 {
                let s = choose|s: int| bits::on(checkers, s);
                assert(self.board.bears_on(self.turn.opposite(), king as int, occupied, s));
            }
            if self.in_check() {
                let (other, s) = choose|other: int, s: int|
                    {
                        &&& #[trigger] self.board.mine(Role::King, self.turn)(other)
                        &&& forall|lower: int|
                            lower < other ==> !(#[trigger] self.board.mine(Role::King, self.turn)(
                                lower,
                            ))
                        &&& #[trigger] self.board.bears_on(
                            self.turn.opposite(),
                            other,
                            self.board.everything(),
                            s,
                        )
                    };
                assert(mine(other));
                assert(other == king);
                assert(bits::on(checkers, s));
            }
        }
        checkers != 0
    }
}

/// The player to move is in check just where the other attacks their king.
pub proof fn law_a_check_is_an_attack_on_the_king(position: Position, king: int)
    requires
        position.board.sole_king(position.turn, king),
        chess::in_order(position.board, position.turn.opposite()),
    ensures
        position.in_check() <==> position.board.attacked(
            position.turn.opposite(),
            position.board.everything(),
            king,
        ),
{
    let board = position.board;
    let other = position.turn.opposite();
    chess::law_a_king_is_found_where_it_stands(board, position.turn, king);
    chess::law_an_attack_comes_from_somewhere(board, other, board.everything(), king);
    assert(board.mine(Role::King, position.turn)(king));
    if board.attacked(other, board.everything(), king) {
        let s = choose|s: int| board.bears_on(other, king, board.everything(), s);
        assert(board.mine(Role::King, position.turn)(king) && board.bears_on(
            other,
            king,
            board.everything(),
            s,
        ));
        assert forall|lower: int| lower < king implies !(#[trigger] board.mine(
            Role::King,
            position.turn,
        )(lower)) by {}
    }
    if position.in_check() {
        let (k, s) = choose|k: int, s: int|
            {
                &&& #[trigger] board.mine(Role::King, position.turn)(k)
                &&& forall|lower: int|
                    lower < k ==> !(#[trigger] board.mine(Role::King, position.turn)(lower))
                &&& #[trigger] board.bears_on(other, k, board.everything(), s)
            };
        assert(k == king);
    }
}

} // verus!
