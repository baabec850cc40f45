//! What a position has to say for itself: where a game starts, what can be
//! played, and whether the game is over.

use vstd::prelude::*;

use crate::bits;
use crate::chess::{Board, Color, Move, Position, Role};
use crate::rules;
use crate::rules::{generate, play, Seat};

verus! {

/// The dark squares of the board, of which a1 is one.
pub open spec fn is_dark(s: int) -> bool {
    (s / 8 + s % 8) % 2 == 0
}

/// Whether a player has a piece of a role.
pub open spec fn owns(board: Board, role: Role, color: Color) -> bool {
    exists|s: int| #[trigger] board.mine(role, color)(s)
}

/// The squares of a player's pieces other than the king and queens.
pub open spec fn lesser(board: Board, color: Color) -> spec_fn(int) -> bool {
    |s: int|
        bits::on(board.side(color), s) && !bits::on(board.kings, s) && !bits::on(board.queens, s)
}

/// Whether there is a bishop on a dark square, or on a light one.
pub open spec fn bishop_on(board: Board, dark: bool) -> bool {
    exists|s: int| #[trigger] bits::on(board.bishops, s) && is_dark(s) == dark
}

/// Whether a player cannot mate by any sequence of moves: without pawns, rooks
/// and queens, a knight does not do it on its own against a king and queens, and
/// bishops do not where all bishops of the board share a shade and nothing else
/// is left.
pub open spec fn too_little(board: Board, color: Color) -> bool {
    &&& !owns(board, Role::Pawn, color)
    &&& !owns(board, Role::Rook, color)
    &&& !owns(board, Role::Queen, color)
    &&& owns(board, Role::Knight, color) ==> {
        &&& bits::tally(bits::member(board.side(color))) <= 2
        &&& forall|s: int| !#[trigger] lesser(board, color.opposite())(s)
    }
    &&& !owns(board, Role::Knight, color) && owns(board, Role::Bishop, color) ==> {
        &&& !(bishop_on(board, true) && bishop_on(board, false))
        &&& forall|s: int| !#[trigger] bits::on(board.knights, s)
        &&& forall|s: int| !#[trigger] bits::on(board.pawns, s)
    }
}

/// The legal moves that take something, in the order of generation.
pub open spec fn captures(position: Position) -> Seq<Move> {
    rules::legal(position).filter(|m: Move| m.captured() is Some)
}

/// The legal moves that promote, in the order of generation.
pub open spec fn promotions(position: Position) -> Seq<Move> {
    rules::legal(position).filter(|m: Move| m.promoted() is Some)
}

/// The number of ways to play `depth` moves, one after the other.
pub open spec fn leaves(position: Position, depth: nat) -> nat
    decreases depth, 1nat, 0nat,
{
    if depth == 0 {
        1
    } else {
        leaves_from(position, depth, rules::legal(position).len())
    }
}

/// The ways to play on with one of the first `n` legal moves.
pub open spec fn leaves_from(position: Position, depth: nat, n: nat) -> nat
    decreases depth, 0nat, n,
{
    if depth == 0 || n == 0 || n > rules::legal(position).len() {
        0
    } else {
        leaves_from(position, depth, (n - 1) as nat) + leaves(
            rules::after(position, rules::legal(position)[n - 1]),
            (depth - 1) as nat,
        )
    }
}

/// The position at the start of a game of chess.
pub open spec fn starting() -> Position {
    Position {
        board: Board {
            pawns: 0x00ff_0000_0000_ff00,
            knights: 0x4200_0000_0000_0042,
            bishops: 0x2400_0000_0000_0024,
            rooks: 0x8100_0000_0000_0081,
            queens: 0x0800_0000_0000_0008,
            kings: 0x1000_0000_0000_0010,
            white: 0x0000_0000_0000_ffff,
            black: 0xffff_0000_0000_0000,
        },
        turn: Color::White,
        castling_rights: 0x8100_0000_0000_0081,
        ep_square: None,
        halfmoves: 0,
        fullmoves: 1,
    }
}

const DARK_SQUARES: u64 = 0xaa55_aa55_aa55_aa55;

proof fn lemma_dark(s: int)
    requires
        0 <= s < 64,
    ensures
        bits::on(DARK_SQUARES, s) == is_dark(s),
{
    let k = s as u64;
    assert(((0xaa55_aa55_aa55_aa55u64 >> k) & 1 == 1) <==> ((k / 8 + k % 8) % 2 == 0))
        by (bit_vector)
        requires
            k < 64,
    ;
}

/// Whether a player has a piece of a role.
fn has_piece(board: &Board, role: Role, color: Color) -> (found: bool)
    ensures
        found == owns(*board, role, color),
{
    let of_role: u64 = board.by_role(role);
    let ours: u64 = board.by_color(color);
    let both: u64 = of_role & ours;
    proof {
        bits::lemma_ops(of_role, ours);
        bits::lemma_empty(both);
        if both != 0 {
            let s = choose|s: int| bits::on(both, s);
            assert(board.mine(role, color)(s));
        } else {
            assert forall|s: int| !#[trigger] board.mine(role, color)(s) by {
                assert(!bits::on(both, s));
            }
        }
    }
    both != 0
}

/// Whether all the bishops of the board stand on squares of one shade.
fn bishops_share_a_shade(board: &Board) -> (shared: bool)
    ensures
        shared == !(bishop_on(*board, true) && bishop_on(*board, false)),
{
    let dark: u64 = board.bishops & DARK_SQUARES;
    let light: u64 = board.bishops & !DARK_SQUARES;
    proof {
        bits::lemma_ops(board.bishops, DARK_SQUARES);
        bits::lemma_ops(board.bishops, !DARK_SQUARES);
        bits::lemma_not(DARK_SQUARES);
        bits::lemma_empty(dark);
        bits::lemma_empty(light);
        assert forall|s: int| #[trigger] bits::on(board.bishops, s) implies bits::on(dark, s)
            == is_dark(s) && bits::on(light, s) == !is_dark(s) by {
            lemma_dark(s);
            assert(bits::on(dark, s) == (bits::on(board.bishops, s) && bits::on(DARK_SQUARES, s)));
            assert(bits::on(light, s) == (bits::on(board.bishops, s) && bits::on(
                !DARK_SQUARES,
                s,
            )));
        }
        if dark != 0 {
            let s = choose|s: int| bits::on(dark, s);
            assert(bits::on(board.bishops, s));
        }
        if light != 0 {
            let s = choose|s: int| bits::on(light, s);
            assert(bits::on(board.bishops, s));
        }
    }
    dark == 0 || light == 0
}

/// Whether a player has nothing but a king and queens.
fn only_king_and_queens(board: &Board, color: Color) -> (only: bool)
    ensures
        only == (forall|s: int| !#[trigger] lesser(*board, color)(s)),
{
    let ours: u64 = board.by_color(color);
    let no_king: u64 = ours & !board.kings;
    let rest: u64 = no_king & !board.queens;
    proof {
        bits::lemma_ops(ours, !board.kings);
        bits::lemma_ops(no_king, !board.queens);
        bits::lemma_not(board.kings);
        bits::lemma_not(board.queens);
        bits::lemma_empty(rest);
        assert forall|s: int| #[trigger] lesser(*board, color)(s) == bits::on(rest, s) by {}
        if rest != 0 {
            let s = choose|s: int| bits::on(rest, s);
            assert(lesser(*board, color)(s));
        }
    }
    rest == 0
}

/// Whether `color` cannot mate by any sequence of moves.
fn has_too_little(board: &Board, color: Color) -> (little: bool)
    ensures
        little == too_little(*board, color),
{
    if has_piece(board, Role::Pawn, color) || has_piece(board, Role::Rook, color) || has_piece(
        board,
        Role::Queen,
        color,
    ) {
        return false;
    }
    if has_piece(board, Role::Knight, color) {
        let few: bool = board.by_color(color).count_ones() <= 2;
        return few && only_king_and_queens(board, color.other());
    }
    if has_piece(board, Role::Bishop, color) {
        proof {
            bits::lemma_empty(board.knights);
            bits::lemma_empty(board.pawns);
        }
        return bishops_share_a_shade(board) && board.knights == 0 && board.pawns == 0;
    }
    true
}

/// How a game stands.
#[derive(Clone, Copy, PartialEq, Eq, Debug, Structural)]
pub enum Outcome {
    /// Somebody is checkmated.
    Decisive { winner: Color },
    /// Nobody can win any more.
    Draw,
    /// The game goes on.
    Unknown,
}

impl Position {
    /// The position at the start of a game of chess.
    pub fn start() -> (position: Position)
        ensures
            position == starting(),
    {
        Position {
            board: Board {
                pawns: 0x00ff_0000_0000_ff00,
                knights: 0x4200_0000_0000_0042,
                bishops: 0x2400_0000_0000_0024,
                rooks: 0x8100_0000_0000_0081,
                queens: 0x0800_0000_0000_0008,
                kings: 0x1000_0000_0000_0010,
                white: 0x0000_0000_0000_ffff,
                black: 0xffff_0000_0000_0000,
            },
            turn: Color::White,
            castling_rights: 0x8100_0000_0000_0081,
            ep_square: None,
            halfmoves: 0,
            fullmoves: 1,
        }
    }

    /// The legal moves.
    pub fn legal_moves(&self) -> (moves: Vec<Move>)
        ensures
            moves@ == rules::legal(*self),
            forall|i: int| 0 <= i < moves.len() ==> (#[trigger] moves@[i]).on_board(),
    {
        generate(&Seat::sit(*self))
    }

    /// Whether a move is legal here.
    pub fn is_legal(&self, m: Move) -> (legal: bool)
        ensures
            legal == rules::legal(*self).contains(m),
            legal ==> m.on_board(),
    {
        let moves = generate(&Seat::sit(*self));
        let mut index: usize = 0;
        while index < moves.len()
            invariant
                index <= moves.len(),
                moves@ == rules::legal(*self),
                forall|i: int| 0 <= i < moves.len() ==> (#[trigger] moves@[i]).on_board(),
                forall|i: int| 0 <= i < index ==> moves@[i] != m,
            decreases moves.len() - index,
        {
            if moves[index] == m {
                return true;
            }
            index += 1;
        }
        false
    }

    /// Whether neither player could mate by any sequence of moves.
    pub fn is_insufficient_material(&self) -> (insufficient: bool)
        ensures
            insufficient == self.is_dead(),
    {
        has_too_little(&self.board, Color::White) && has_too_little(&self.board, Color::Black)
    }

    /// Whether neither player could mate by any sequence of moves.
    pub open spec fn is_dead(self) -> bool {
        too_little(self.board, Color::White) && too_little(self.board, Color::Black)
    }

    /// How the game stands, by the position alone.
    pub open spec fn verdict(self) -> Outcome {
        if rules::legal(self).len() == 0 && self.in_check() {
            Outcome::Decisive { winner: self.turn.opposite() }
        } else if rules::legal(self).len() == 0 || self.is_dead() {
            Outcome::Draw
        } else {
            Outcome::Unknown
        }
    }

    /// How the game stands, by the position alone.
    pub fn outcome(&self) -> (outcome: Outcome)
        ensures
            outcome == self.verdict(),
    {
        if self.is_checkmate() {
            Outcome::Decisive { winner: self.turn.other() }
        } else if self.is_insufficient_material() || self.is_stalemate() {
            Outcome::Draw
        } else {
            Outcome::Unknown
        }
    }

    /// Whether the game is over by checkmate, stalemate or dead material.
    pub fn is_game_over(&self) -> (over: bool)
        ensures
            over == (self.verdict() != Outcome::Unknown),
    {
        generate(&Seat::sit(*self)).len() == 0 || self.is_insufficient_material()
    }

    /// Whether the player to move is checkmated.
    pub fn is_checkmate(&self) -> (mated: bool)
        ensures
            mated == (self.in_check() && rules::legal(*self).len() == 0),
    {
        self.is_check() && generate(&Seat::sit(*self)).len() == 0
    }

    /// Whether the player to move has no move and is not in check.
    pub fn is_stalemate(&self) -> (stuck: bool)
        ensures
            stuck == (!self.in_check() && rules::legal(*self).len() == 0),
    {
        !self.is_check() && generate(&Seat::sit(*self)).len() == 0
    }
}

/// Counts the ways to play `depth` moves, one after the other, as far as 64 bits
/// can count.
pub fn perft(position: &Position, depth: u32) -> (count: u64)
    ensures
        count as nat == leaves(*position, depth as nat) % 0x1_0000_0000_0000_0000,
{
    count_leaves(&Seat::sit(*position), depth)
}

/// Counts the ways to play `depth` moves from a seat.
fn count_leaves(seat: &Seat, depth: u32) -> (count: u64)
    ensures
        count as nat == leaves(seat.here(), depth as nat) % 0x1_0000_0000_0000_0000,
    decreases depth,
{
    let ghost position = seat.here();
    if depth == 0 {
        return 1;
    }
    let moves = generate(seat);
    let mut count: u64 = 0;
    let mut index: usize = 0;
    while index < moves.len()
        invariant
            index <= moves.len(),
            depth > 0,
            position == seat.here(),
            moves@ == rules::legal(position),
            forall|i: int| 0 <= i < moves.len() ==> (#[trigger] moves@[i]).on_board(),
            count as nat == leaves_from(position, depth as nat, index as nat)
                % 0x1_0000_0000_0000_0000,
        decreases moves.len() - index,
    {
        let m = moves[index];
        assert(rules::legal(position).contains(m));
        let child = play(seat, m);
        let more: u64 = count_leaves(&child, depth - 1);
        let ghost sum = count as nat + more as nat;
        count = count.wrapping_add(more);
        proof {
            assert(leaves_from(position, depth as nat, (index + 1) as nat) == leaves_from(
                position,
                depth as nat,
                index as nat,
            ) + leaves(child.here(), (depth - 1) as nat));
        }
        index += 1;
    }
    count
}

/// Whether a player has nothing but kings.
pub open spec fn is_bare(board: Board, color: Color) -> bool {
    &&& !owns(board, Role::Pawn, color)
    &&& !owns(board, Role::Knight, color)
    &&& !owns(board, Role::Bishop, color)
    &&& !owns(board, Role::Rook, color)
    &&& !owns(board, Role::Queen, color)
    &&& forall|s: int| #[trigger] bits::on(board.side(color), s) ==> bits::on(board.kings, s)
}

/// Dead material is dead for both. Kings alone are, and so are kings and a single
/// knight, and kings and bishops that all stand on squares of one shade. A pawn, a
/// rook or a queen of either player keeps a game alive, and so do a knight with a
/// companion and bishops of both shades.
pub proof fn law_what_material_is_dead(position: Position, color: Color)
    ensures
        ({
            let board = position.board;
            let other = color.opposite();
            &&& is_bare(board, color) && is_bare(board, other) ==> position.is_dead()
            &&& owns(board, Role::Pawn, color) || owns(board, Role::Rook, color) || owns(
                board,
                Role::Queen,
                color,
            ) ==> !position.is_dead()
            &&& owns(board, Role::Knight, color) && bits::tally(bits::member(board.side(color))) > 2
                ==> !position.is_dead()
            &&& owns(board, Role::Knight, color) && owns(board, Role::Bishop, other)
                && (forall|s: int| !(#[trigger] bits::on(board.kings, s) && bits::on(board.bishops, s)))
                && (forall|s: int| !(#[trigger] bits::on(board.queens, s) && bits::on(board.bishops, s)))
                ==> !position.is_dead()
            &&& owns(board, Role::Bishop, color) && !owns(board, Role::Knight, color) && (exists|
                s: int,
                t: int,
            |
                #![trigger bits::on(board.bishops, s), bits::on(board.bishops, t)]
                bits::on(board.bishops, s) && bits::on(board.bishops, t) && (s / 8 + s) % 2 != (t
                    / 8 + t) % 2) ==> !position.is_dead()
        }),
{
    let board = position.board;
    let other = color.opposite();
    if owns(board, Role::Bishop, other) {
        let s = choose|s: int| #[trigger] board.mine(Role::Bishop, other)(s);
        if !bits::on(board.kings, s) && !bits::on(board.queens, s) {
            assert(lesser(board, other)(s));
        }
    }
    if exists|s: int, t: int|
        #![trigger bits::on(board.bishops, s), bits::on(board.bishops, t)]
        bits::on(board.bishops, s) && bits::on(board.bishops, t) && (s / 8 + s) % 2 != (t / 8 + t)
            % 2 {
        let (s, t) = choose|s: int, t: int|
            #![trigger bits::on(board.bishops, s), bits::on(board.bishops, t)]
            bits::on(board.bishops, s) && bits::on(board.bishops, t) && (s / 8 + s) % 2 != (t / 8
                + t) % 2;
        assert((s / 8 + s % 8) % 2 == (s / 8 + s) % 2);
        assert((t / 8 + t % 8) % 2 == (t / 8 + t) % 2);
        assert(bishop_on(board, is_dark(s)));
        assert(bishop_on(board, is_dark(t)));
    }
}

/// A single knight, or bishops of one shade, cannot mate a bare king.
pub proof fn law_too_little_is_dead(position: Position, color: Color)
    requires
        is_bare(position.board, color.opposite()),
        !owns(position.board, Role::Pawn, color),
        !owns(position.board, Role::Rook, color),
        !owns(position.board, Role::Queen, color),
        owns(position.board, Role::Knight, color) ==> bits::tally(
            bits::member(position.board.side(color)),
        ) <= 2,
        !owns(position.board, Role::Knight, color) && owns(position.board, Role::Bishop, color) ==> {
            &&& forall|s: int, t: int|
                #![trigger bits::on(position.board.bishops, s), bits::on(position.board.bishops, t)]
                bits::on(position.board.bishops, s) && bits::on(position.board.bishops, t) ==> (s / 8
                    + s) % 2 == (t / 8 + t) % 2
            &&& forall|s: int| !#[trigger] bits::on(position.board.knights, s)
            &&& forall|s: int| !#[trigger] bits::on(position.board.pawns, s)
        },
    ensures
        position.is_dead(),
{
    let board = position.board;
    let other = color.opposite();
    assert(other.opposite() == color);
    assert forall|s: int| !#[trigger] lesser(board, other)(s) by {
        if bits::on(board.side(other), s) {
            assert(bits::on(board.kings, s));
        }
    }
    if bishop_on(board, true) && bishop_on(board, false) {
        let s = choose|s: int| #[trigger] bits::on(board.bishops, s) && is_dark(s) == true;
        let t = choose|t: int| #[trigger] bits::on(board.bishops, t) && is_dark(t) == false;
        assert((s / 8 + s % 8) % 2 == (s / 8 + s) % 2);
        assert((t / 8 + t % 8) % 2 == (t / 8 + t) % 2);
    }
}

/// A game is over just where there is no legal move or the material is dead. A player
/// who is in check without a move has lost to the other; any other end is a draw.
pub proof fn law_how_a_game_ends(position: Position)
    ensures
        position.verdict() == Outcome::Unknown <==> rules::legal(position).len() > 0
            && !position.is_dead(),
        position.verdict() is Decisive <==> rules::legal(position).len() == 0
            && position.in_check(),
        position.verdict() matches Outcome::Decisive { winner } ==> winner != position.turn,
{
}

/// There is one way to play no moves, and as many ways to play one as there are legal
/// moves. The ways to play more are those of each legal move put together.
pub proof fn law_the_ways_to_play_add_up(position: Position, depth: nat)
    ensures
        leaves(position, 0) == 1,
        leaves(position, 1) == rules::legal(position).len(),
        rules::legal(position).len() == 0 ==> leaves(position, depth + 1) == 0,
        leaves(position, depth + 1) == rules::legal(position).map_values(
            |m: Move| leaves(rules::after(position, m), depth),
        ).fold_left(0nat, |sum: nat, n: nat| sum + n),
{
    lemma_leaves_add_up(position, depth, rules::legal(position).len());
    lemma_one_each(position, rules::legal(position).len());
    assert(rules::legal(position).take(rules::legal(position).len() as int) =~= rules::legal(
        position,
    ));
}

proof fn lemma_one_each(position: Position, n: nat)
    requires
        n <= rules::legal(position).len(),
    ensures
        leaves_from(position, 1, n) == n,
    decreases n,
{
    if n > 0 {
        lemma_one_each(position, (n - 1) as nat);
        assert(leaves(rules::after(position, rules::legal(position)[n - 1]), 0) == 1);
    }
}

proof fn lemma_leaves_add_up(position: Position, depth: nat, n: nat)
    requires
        n <= rules::legal(position).len(),
    ensures
        leaves_from(position, depth + 1, n) == rules::legal(position).take(n as int).map_values(
            |m: Move| leaves(rules::after(position, m), depth),
        ).fold_left(0nat, |sum: nat, n: nat| sum + n),
    decreases n,
{
    let count = |m: Move| leaves(rules::after(position, m), depth);
    let plus = |sum: nat, n: nat| sum + n;
    let legal = rules::legal(position);
    let now = legal.take(n as int).map_values(count);
    if n > 0 {
        lemma_leaves_add_up(position, depth, (n - 1) as nat);
        let before = legal.take(n - 1).map_values(count);
        assert(now.drop_last() =~= before);
        assert(now.last() == count(legal[n - 1]));
        assert(now.fold_left(0nat, plus) == plus(before.fold_left(0nat, plus), now.last()));
    }
}

} // verus!
