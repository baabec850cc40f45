//! The chess that the engine reasons about, as plain values.
//!
//! A [`Position`] holds what a FEN holds: where the pieces stand, whose turn it
//! is, the castling rights, the en passant square and the two clocks. Squares
//! are numbers from 0 (a1) to 63 (h8), rank by rank. The rules that need move
//! generation are in [`crate::rules`].

use vstd::prelude::*;

use crate::bits;

verus! {

/// A player.
#[derive(Clone, Copy, PartialEq, Eq, Debug, Structural)]
pub enum Color {
    White,
    Black,
}

/// What a piece is.
#[derive(Clone, Copy, PartialEq, Eq, Debug, Structural)]
pub enum Role {
    Pawn,
    Knight,
    Bishop,
    Rook,
    Queen,
    King,
}

/// A piece of a player.
#[derive(Clone, Copy, PartialEq, Eq, Debug, Structural)]
pub struct Piece {
    pub color: Color,
    pub role: Role,
}

/// A move, with all that is needed to play it and to judge it.
#[derive(Clone, Copy, PartialEq, Eq, Debug, Structural)]
pub enum Move {
    /// A piece moves, perhaps takes, and perhaps promotes.
    Normal { role: Role, from: u8, capture: Option<Role>, to: u8, promotion: Option<Role> },
    /// A pawn takes en passant.
    EnPassant { from: u8, to: u8 },
    /// The king castles with the rook.
    Castle { king: u8, rook: u8 },
    /// A piece is dropped, which standard chess never does.
    Put { role: Role, to: u8 },
}

/// Where the pieces stand: the squares of each role and of each player.
#[derive(Clone, Copy, PartialEq, Eq, Debug, Structural)]
pub struct Board {
    pub pawns: u64,
    pub knights: u64,
    pub bishops: u64,
    pub rooks: u64,
    pub queens: u64,
    pub kings: u64,
    pub white: u64,
    pub black: u64,
}

/// A position in a game.
#[derive(Clone, Copy, PartialEq, Eq, Debug, Structural)]
pub struct Position {
    pub board: Board,
    /// Whose move it is.
    pub turn: Color,
    /// The rooks that may still castle.
    pub castling_rights: u64,
    /// The square that a pawn has just passed over.
    pub ep_square: Option<u8>,
    /// Half-moves since the last capture or pawn move.
    pub halfmoves: u32,
    /// The move number, from 1.
    pub fullmoves: u32,
}

/// The file of a square, from 0 for a to 7 for h.
pub open spec fn file_of(s: int) -> int {
    s % 8
}

/// The rank of a square, from 0 for the first to 7 for the eighth.
pub open spec fn rank_of(s: int) -> int {
    s / 8
}

/// The distance between two numbers.
pub open spec fn gap(a: int, b: int) -> int {
    if a < b {
        b - a
    } else {
        a - b
    }
}

pub open spec fn larger(a: int, b: int) -> int {
    if a < b {
        b
    } else {
        a
    }
}

pub open spec fn smaller(a: int, b: int) -> int {
    if a < b {
        a
    } else {
        b
    }
}

/// How many king moves apart two squares are.
pub open spec fn king_steps(a: int, b: int) -> int {
    larger(gap(file_of(a), file_of(b)), gap(rank_of(a), rank_of(b)))
}

/// Which way `b` lies from `a`: -1, 0 or 1.
pub open spec fn heading(a: int, b: int) -> int {
    if a < b {
        1
    } else if a == b {
        0
    } else {
        -1
    }
}

/// The square `k` steps from `from` towards `to`, along a rank, file or diagonal.
pub open spec fn ray(from: int, to: int, k: int) -> int {
    from + k * (8 * heading(rank_of(from), rank_of(to)) + heading(file_of(from), file_of(to)))
}

/// Whether the squares strictly between two squares of a line are empty.
pub open spec fn clear(from: int, to: int, occupied: u64) -> bool {
    forall|k: int| 0 < k < king_steps(from, to) ==> !bits::on(occupied, #[trigger] ray(from, to, k))
}

/// A pawn on `from` attacks the two squares diagonally ahead of it.
pub open spec fn pawn_reaches(color: Color, from: int, to: int) -> bool {
    &&& rank_of(to) - rank_of(from) == if color == Color::White { 1int } else { -1int }
    &&& gap(file_of(from), file_of(to)) == 1
}

/// A knight attacks the squares one step along and two steps across.
pub open spec fn knight_reaches(from: int, to: int) -> bool {
    let files = gap(file_of(from), file_of(to));
    let ranks = gap(rank_of(from), rank_of(to));
    (files == 1 && ranks == 2) || (files == 2 && ranks == 1)
}

/// A king attacks the squares around it.
pub open spec fn king_reaches(from: int, to: int) -> bool {
    king_steps(from, to) == 1
}

/// A rook attacks along its rank and file, up to and with the first piece.
pub open spec fn rook_reaches(from: int, to: int, occupied: u64) -> bool {
    &&& from != to
    &&& file_of(from) == file_of(to) || rank_of(from) == rank_of(to)
    &&& clear(from, to, occupied)
}

/// A bishop attacks along its diagonals, up to and with the first piece.
pub open spec fn bishop_reaches(from: int, to: int, occupied: u64) -> bool {
    &&& from != to
    &&& gap(file_of(from), file_of(to)) == gap(rank_of(from), rank_of(to))
    &&& clear(from, to, occupied)
}

/// Whether a piece on `from` attacks `to`, seen through `occupied`.
pub open spec fn reaches(role: Role, color: Color, from: int, to: int, occupied: u64) -> bool {
    match role {
        Role::Pawn => pawn_reaches(color, from, to),
        Role::Knight => knight_reaches(from, to),
        Role::Bishop => bishop_reaches(from, to, occupied),
        Role::Rook => rook_reaches(from, to, occupied),
        Role::Queen => rook_reaches(from, to, occupied) || bishop_reaches(from, to, occupied),
        Role::King => king_reaches(from, to),
    }
}

impl Color {
    pub open spec fn opposite(self) -> Color {
        if self == Color::White {
            Color::Black
        } else {
            Color::White
        }
    }

    /// The other player.
    pub fn other(self) -> (color: Color)
        ensures
            color == self.opposite(),
    {
        match self {
            Color::White => Color::Black,
            Color::Black => Color::White,
        }
    }

    /// A rank as this player counts it, from their own side of the board.
    pub open spec fn own_rank(self, rank: int) -> int {
        if self == Color::White {
            rank
        } else {
            7 - rank
        }
    }

    /// The player in a word.
    pub open spec fn title(self) -> Seq<char> {
        match self {
            Color::White => "white"@,
            Color::Black => "black"@,
        }
    }

    /// The player in a word.
    pub fn name(self) -> (name: &'static str)
        ensures
            name@ == self.title(),
    {
        match self {
            Color::White => "white",
            Color::Black => "black",
        }
    }

    /// The letter that a FEN uses.
    pub open spec fn letter(self) -> char {
        match self {
            Color::White => 'w',
            Color::Black => 'b',
        }
    }

    /// The letter that a FEN uses.
    pub fn char(self) -> (letter: char)
        ensures
            letter == self.letter(),
    {
        match self {
            Color::White => 'w',
            Color::Black => 'b',
        }
    }
}

impl Role {
    pub open spec fn letter(self) -> char {
        match self {
            Role::Pawn => 'p',
            Role::Knight => 'n',
            Role::Bishop => 'b',
            Role::Rook => 'r',
            Role::Queen => 'q',
            Role::King => 'k',
        }
    }

    pub open spec fn capital(self) -> char {
        match self {
            Role::Pawn => 'P',
            Role::Knight => 'N',
            Role::Bishop => 'B',
            Role::Rook => 'R',
            Role::Queen => 'Q',
            Role::King => 'K',
        }
    }

    /// The lower-case letter of the role.
    pub fn char(self) -> (letter: char)
        ensures
            letter == self.letter(),
    {
        match self {
            Role::Pawn => 'p',
            Role::Knight => 'n',
            Role::Bishop => 'b',
            Role::Rook => 'r',
            Role::Queen => 'q',
            Role::King => 'k',
        }
    }

    /// The capital letter of the role.
    pub fn upper_char(self) -> (letter: char)
        ensures
            letter == self.capital(),
    {
        match self {
            Role::Pawn => 'P',
            Role::Knight => 'N',
            Role::Bishop => 'B',
            Role::Rook => 'R',
            Role::Queen => 'Q',
            Role::King => 'K',
        }
    }
}

impl Move {
    pub open spec fn moved(self) -> Role {
        match self {
            Move::Normal { role, .. } => role,
            Move::EnPassant { .. } => Role::Pawn,
            Move::Castle { .. } => Role::King,
            Move::Put { role, .. } => role,
        }
    }

    pub open spec fn origin(self) -> Option<u8> {
        match self {
            Move::Normal { from, .. } => Some(from),
            Move::EnPassant { from, .. } => Some(from),
            Move::Castle { king, .. } => Some(king),
            Move::Put { .. } => None,
        }
    }

    pub open spec fn target(self) -> u8 {
        match self {
            Move::Normal { to, .. } => to,
            Move::EnPassant { to, .. } => to,
            Move::Castle { rook, .. } => rook,
            Move::Put { to, .. } => to,
        }
    }

    pub open spec fn captured(self) -> Option<Role> {
        match self {
            Move::Normal { capture, .. } => capture,
            Move::EnPassant { .. } => Some(Role::Pawn),
            _ => None,
        }
    }

    pub open spec fn promoted(self) -> Option<Role> {
        match self {
            Move::Normal { promotion, .. } => promotion,
            _ => None,
        }
    }

    /// Whether every square that the move names is on the board.
    pub open spec fn on_board(self) -> bool {
        match self {
            Move::Normal { from, to, .. } => from < 64 && to < 64,
            Move::EnPassant { from, to } => from < 64 && to < 64,
            Move::Castle { king, rook } => king < 64 && rook < 64,
            Move::Put { to, .. } => to < 64,
        }
    }

    /// The role of the piece that moves.
    pub fn role(self) -> (role: Role)
        ensures
            role == self.moved(),
    {
        match self {
            Move::Normal { role, .. } => role,
            Move::EnPassant { .. } => Role::Pawn,
            Move::Castle { .. } => Role::King,
            Move::Put { role, .. } => role,
        }
    }

    /// The square that the piece leaves.
    pub fn from(self) -> (square: Option<u8>)
        ensures
            square == self.origin(),
    {
        match self {
            Move::Normal { from, .. } => Some(from),
            Move::EnPassant { from, .. } => Some(from),
            Move::Castle { king, .. } => Some(king),
            Move::Put { .. } => None,
        }
    }

    /// The square that the piece goes to; the rook's square for castling.
    pub fn to(self) -> (square: u8)
        ensures
            square == self.target(),
    {
        match self {
            Move::Normal { to, .. } => to,
            Move::EnPassant { to, .. } => to,
            Move::Castle { rook, .. } => rook,
            Move::Put { to, .. } => to,
        }
    }

    /// The role of the piece that is taken.
    pub fn capture(self) -> (role: Option<Role>)
        ensures
            role == self.captured(),
    {
        match self {
            Move::Normal { capture, .. } => capture,
            Move::EnPassant { .. } => Some(Role::Pawn),
            Move::Castle { .. } => None,
            Move::Put { .. } => None,
        }
    }

    /// The role that a pawn turns into.
    pub fn promotion(self) -> (role: Option<Role>)
        ensures
            role == self.promoted(),
    {
        match self {
            Move::Normal { promotion, .. } => promotion,
            Move::EnPassant { .. } => None,
            Move::Castle { .. } => None,
            Move::Put { .. } => None,
        }
    }
}

impl Board {
    /// The squares of a player.
    pub open spec fn side(self, color: Color) -> u64 {
        if color == Color::White {
            self.white
        } else {
            self.black
        }
    }

    /// Whether some piece stands on `s`.
    pub open spec fn taken(self, s: int) -> bool {
        bits::on(self.white, s) || bits::on(self.black, s)
    }

    /// What stands on an occupied square.
    pub open spec fn role_on(self, s: int) -> Role {
        if bits::on(self.pawns, s) {
            Role::Pawn
        } else if bits::on(self.knights, s) {
            Role::Knight
        } else if bits::on(self.bishops, s) {
            Role::Bishop
        } else if bits::on(self.rooks, s) {
            Role::Rook
        } else if bits::on(self.queens, s) {
            Role::Queen
        } else {
            Role::King
        }
    }

    pub open spec fn of_role(self, role: Role) -> u64 {
        match role {
            Role::Pawn => self.pawns,
            Role::Knight => self.knights,
            Role::Bishop => self.bishops,
            Role::Rook => self.rooks,
            Role::Queen => self.queens,
            Role::King => self.kings,
        }
    }

    /// The squares of a player's pieces of one role.
    pub open spec fn mine(self, role: Role, color: Color) -> spec_fn(int) -> bool {
        |s: int| bits::on(self.of_role(role), s) && bits::on(self.side(color), s)
    }

    /// The squares of all the pieces.
    pub open spec fn everything(self) -> u64 {
        self.white | self.black
    }

    /// Whether a piece of `color` on some square attacks `to`, seen through
    /// `occupied`.
    pub open spec fn attacked(self, color: Color, occupied: u64, to: int) -> bool {
        exists|s: int| #[trigger]
            bits::on(self.side(color), s) && reaches(self.role_on(s), color, s, to, occupied)
    }

    /// Whether the piece of `attacker` on `s` bears on `square`: `s` is where a
    /// piece of its own kind standing on `square` would reach.
    pub open spec fn bears_on(self, attacker: Color, square: int, occupied: u64, s: int) -> bool {
        &&& bits::on(self.side(attacker), s)
        &&& {
            ||| rook_reaches(square, s, occupied) && (bits::on(self.rooks, s) || bits::on(self.queens, s))
            ||| bishop_reaches(square, s, occupied) && (bits::on(self.bishops, s) || bits::on(self.queens, s))
            ||| knight_reaches(square, s) && bits::on(self.knights, s)
            ||| king_reaches(square, s) && bits::on(self.kings, s)
            ||| pawn_reaches(attacker.opposite(), square, s) && bits::on(self.pawns, s)
        }
    }

    /// Whether `color` has one king, and it stands on `s`.
    pub open spec fn sole_king(self, color: Color, s: int) -> bool {
        forall|t: int| #[trigger] self.mine(Role::King, color)(t) == (t == s)
    }

    /// The square of a player's king, where there is exactly one.
    pub open spec fn king_square(self, color: Color) -> Option<u8> {
        if exists|s: int| self.sole_king(color, s) {
            Some((choose|s: int| self.sole_king(color, s)) as u8)
        } else {
            None
        }
    }

    /// The squares of a player.
    pub fn by_color(&self, color: Color) -> (bits: u64)
        ensures
            bits == self.side(color),
    {
        match color {
            Color::White => self.white,
            Color::Black => self.black,
        }
    }

    /// The squares of a role.
    pub fn by_role(&self, role: Role) -> (bits: u64)
        ensures
            bits == self.of_role(role),
    {
        match role {
            Role::Pawn => self.pawns,
            Role::Knight => self.knights,
            Role::Bishop => self.bishops,
            Role::Rook => self.rooks,
            Role::Queen => self.queens,
            Role::King => self.kings,
        }
    }

    /// The squares of all the pieces.
    pub fn occupied(&self) -> (bits: u64)
        ensures
            bits == self.everything(),
            forall|s: int| #![trigger bits::on(bits, s)] bits::on(bits, s) == self.taken(s),
    {
        proof {
            bits::lemma_ops(self.white, self.black);
        }
        self.white | self.black
    }

    /// The square of a player's king, where there is exactly one.
    pub fn king_of(&self, color: Color) -> (square: Option<u8>)
        ensures
            square == self.king_square(color),
            square matches Some(s) ==> s < 64 && self.sole_king(color, s as int),
    {
        let kings: u64 = self.kings & self.by_color(color);
        let ghost mine = self.mine(Role::King, color);
        proof {
            bits::lemma_ops(self.kings, self.side(color));
            bits::lemma_empty(kings);
            assert forall|t: int| #[trigger] mine(t) == bits::on(kings, t) by {}
        }
        if kings == 0 {
            assert(forall|s: int| self.sole_king(color, s) ==> mine(s));
            return None;
        }
        let (square, rest) = bits::pop_lowest(kings);
        proof {
            bits::lemma_empty(rest);
        }
        if rest == 0 {
            proof {
                assert(self.sole_king(color, square as int)) by {
                    assert forall|t: int| #[trigger] mine(t) == (t == square) by {
                        assert(!bits::on(rest, t));
                    }
                }
                let found = choose|s: int| self.sole_king(color, s);
                assert(self.mine(Role::King, color)(found));
                assert(found == square);
            }
            Some(square)
        } else {
            proof {
                let extra = choose|s: int| bits::on(rest, s);
                assert(mine(extra) && mine(square as int));
                assert(forall|s: int| self.sole_king(color, s) ==> s == extra);
            }
            None
        }
    }

    /// What stands on a square, if anything does.
    pub fn role_at(&self, square: u8) -> (role: Option<Role>)
        requires
            square < 64,
        ensures
            role == if self.taken(square as int) { Some(self.role_on(square as int)) } else { None },
    {
        if !bits::contains(self.white, square) && !bits::contains(self.black, square) {
            None
        } else if bits::contains(self.pawns, square) {
            Some(Role::Pawn)
        } else if bits::contains(self.knights, square) {
            Some(Role::Knight)
        } else if bits::contains(self.bishops, square) {
            Some(Role::Bishop)
        } else if bits::contains(self.rooks, square) {
            Some(Role::Rook)
        } else if bits::contains(self.queens, square) {
            Some(Role::Queen)
        } else {
            Some(Role::King)
        }
    }

    /// The piece on a square, if there is one.
    pub fn piece_at(&self, square: u8) -> (piece: Option<Piece>)
        requires
            square < 64,
        ensures
            match piece {
                Some(found) => {
                    &&& self.taken(square as int)
                    &&& found.role == self.role_on(square as int)
                    &&& found.color == if bits::on(self.white, square as int) {
                        Color::White
                    } else {
                        Color::Black
                    }
                },
                None => !self.taken(square as int),
            },
    {
        match self.role_at(square) {
            None => None,
            Some(role) => {
                if bits::contains(self.white, square) {
                    Some(Piece { color: Color::White, role })
                } else {
                    Some(Piece { color: Color::Black, role })
                }
            },
        }
    }
}

/// Each player has one opponent, and is theirs; and they count the ranks from opposite
/// sides of the board.
pub proof fn law_players_face_each_other(color: Color, rank: int)
    ensures
        color.opposite() != color,
        color.opposite().opposite() == color,
        color.own_rank(rank) + color.opposite().own_rank(rank) == 7,
        Color::White.own_rank(rank) == rank,
{
}

/// A square that just one role holds holds that role.
pub proof fn law_a_square_holds_its_role(board: Board, s: int, role: Role)
    requires
        forall|r: Role| #[trigger] bits::on(board.of_role(r), s) <==> r == role,
    ensures
        board.role_on(s) == role,
        role == Role::Pawn <==> bits::on(board.pawns, s),
        role == Role::Knight <==> bits::on(board.knights, s),
        role == Role::Bishop <==> bits::on(board.bishops, s),
        role == Role::Rook <==> bits::on(board.rooks, s),
        role == Role::Queen <==> bits::on(board.queens, s),
        role == Role::King <==> bits::on(board.kings, s),
{
    assert(bits::on(board.of_role(Role::Pawn), s) <==> role == Role::Pawn);
    assert(bits::on(board.of_role(Role::Knight), s) <==> role == Role::Knight);
    assert(bits::on(board.of_role(Role::Bishop), s) <==> role == Role::Bishop);
    assert(bits::on(board.of_role(Role::Rook), s) <==> role == Role::Rook);
    assert(bits::on(board.of_role(Role::Queen), s) <==> role == Role::Queen);
    assert(bits::on(board.of_role(Role::King), s) <==> role == Role::King);
}

/// King moves are a distance: none lead nowhere, the way back is as long as the way
/// there, and there are no short cuts. Two neighbours are one apart.
pub proof fn law_king_moves_are_a_distance(a: int, b: int, c: int)
    requires
        0 <= a < 64,
        0 <= b < 64,
        0 <= c < 64,
    ensures
        king_steps(a, b) == 0 <==> a == b,
        king_steps(a, b) == king_steps(b, a),
        king_steps(a, c) <= king_steps(a, b) + king_steps(b, c),
        a % 8 < 7 && b == a + 1 ==> king_steps(a, b) == 1,
        b == a + 8 ==> king_steps(a, b) == 1,
        a % 8 < 7 && b == a + 9 ==> king_steps(a, b) == 1,
        a % 8 > 0 && b == a + 7 ==> king_steps(a, b) == 1,
{
}

/// The way between two squares of a line is the same from either end.
proof fn lemma_ray(from: int, to: int, k: int)
    requires
        0 <= from < 64,
        0 <= to < 64,
        file_of(from) == file_of(to) || rank_of(from) == rank_of(to) || gap(
            file_of(from),
            file_of(to),
        ) == gap(rank_of(from), rank_of(to)),
    ensures
        ray(to, from, k) == ray(from, to, king_steps(from, to) - k),
{
    let n = king_steps(from, to);
    let ranks = heading(rank_of(from), rank_of(to));
    let files = heading(file_of(from), file_of(to));
    let step = 8 * ranks + files;
    assert(8 * heading(rank_of(to), rank_of(from)) + heading(file_of(to), file_of(from)) == -step);
    assert(to - from == 8 * (rank_of(to) - rank_of(from)) + (file_of(to) - file_of(from)));
    assert(rank_of(to) - rank_of(from) == n * ranks) by {
        assert(n * 1 == n && n * 0 == 0 && n * (-1) == -n) by (nonlinear_arith);
    }
    assert(file_of(to) - file_of(from) == n * files) by {
        assert(n * 1 == n && n * 0 == 0 && n * (-1) == -n) by (nonlinear_arith);
    }
    assert(to - from == n * step) by (nonlinear_arith)
        requires
            to - from == 8 * (n * ranks) + n * files,
            step == 8 * ranks + files,
    ;
    assert(to + k * (-step) == from + (n - k) * step) by (nonlinear_arith)
        requires
            to - from == n * step,
    ;
}

proof fn lemma_clear(from: int, to: int, occupied: u64)
    requires
        0 <= from < 64,
        0 <= to < 64,
        file_of(from) == file_of(to) || rank_of(from) == rank_of(to) || gap(
            file_of(from),
            file_of(to),
        ) == gap(rank_of(from), rank_of(to)),
        clear(from, to, occupied),
    ensures
        clear(to, from, occupied),
{
    assert forall|k: int| 0 < k < king_steps(to, from) implies !bits::on(
        occupied,
        #[trigger] ray(to, from, k),
    ) by {
        lemma_ray(from, to, k);
        let back = king_steps(from, to) - k;
        assert(!bits::on(occupied, ray(from, to, back)));
    }
}

/// What a piece attacks would attack it back if it were of its kind. A pawn is attacked
/// back by a pawn of the other player.
pub proof fn law_attacks_are_mutual(
    role: Role,
    color: Color,
    from: int,
    to: int,
    occupied: u64,
)
    requires
        0 <= from < 64,
        0 <= to < 64,
    ensures
        reaches(role, color, from, to, occupied) == reaches(
            role,
            if role == Role::Pawn {
                color.opposite()
            } else {
                color
            },
            to,
            from,
            occupied,
        ),
{
    if rook_reaches(from, to, occupied) || bishop_reaches(from, to, occupied) {
        lemma_clear(from, to, occupied);
    }
    if rook_reaches(to, from, occupied) || bishop_reaches(to, from, occupied) {
        lemma_clear(to, from, occupied);
    }
}

/// A piece attacks no square that it stands on, and only a knight leaps: whatever else
/// attacks a square beyond its neighbours has nothing in its way.
pub proof fn law_only_a_knight_leaps(
    role: Role,
    color: Color,
    from: int,
    to: int,
    occupied: u64,
    k: int,
)
    requires
        0 <= from < 64,
        0 <= to < 64,
        reaches(role, color, from, to, occupied),
    ensures
        from != to,
        role != Role::Knight && 0 < k < king_steps(from, to) ==> !bits::on(
            occupied,
            ray(from, to, k),
        ),
        role == Role::Pawn || role == Role::King ==> king_steps(from, to) == 1,
        role == Role::Pawn ==> if color == Color::White {
            to > from
        } else {
            to < from
        },
{
}

/// Whether every piece of a player has one role.
pub open spec fn in_order(board: Board, color: Color) -> bool {
    forall|s: int, r: Role|
        #![trigger bits::on(board.side(color), s), bits::on(board.of_role(r), s)]
        bits::on(board.side(color), s) ==> (bits::on(board.of_role(r), s) <==> r == board.role_on(
            s,
        ))
}

/// A square is attacked just where some piece bears on it.
pub proof fn law_an_attack_comes_from_somewhere(
    board: Board,
    color: Color,
    occupied: u64,
    to: int,
)
    requires
        in_order(board, color),
        0 <= to < 64,
    ensures
        board.attacked(color, occupied, to) <==> exists|s: int|
            board.bears_on(color, to, occupied, s),
{
    if board.attacked(color, occupied, to) {
        let s = choose|s: int| #[trigger]
            bits::on(board.side(color), s) && reaches(board.role_on(s), color, s, to, occupied);
        lemma_roles(board, color, s);
        law_attacks_are_mutual(board.role_on(s), color, s, to, occupied);
        assert(board.bears_on(color, to, occupied, s));
    }
    if exists|s: int| board.bears_on(color, to, occupied, s) {
        let s = choose|s: int| board.bears_on(color, to, occupied, s);
        lemma_roles(board, color, s);
        law_attacks_are_mutual(board.role_on(s), color, s, to, occupied);
        assert(bits::on(board.side(color), s) && reaches(
            board.role_on(s),
            color,
            s,
            to,
            occupied,
        ));
    }
}

proof fn lemma_roles(board: Board, color: Color, s: int)
    requires
        in_order(board, color),
        bits::on(board.side(color), s),
    ensures
        bits::on(board.pawns, s) <==> board.role_on(s) == Role::Pawn,
        bits::on(board.knights, s) <==> board.role_on(s) == Role::Knight,
        bits::on(board.bishops, s) <==> board.role_on(s) == Role::Bishop,
        bits::on(board.rooks, s) <==> board.role_on(s) == Role::Rook,
        bits::on(board.queens, s) <==> board.role_on(s) == Role::Queen,
        bits::on(board.kings, s) <==> board.role_on(s) == Role::King,
{
    assert(bits::on(board.of_role(Role::Pawn), s) <==> board.role_on(s) == Role::Pawn);
    assert(bits::on(board.of_role(Role::Knight), s) <==> board.role_on(s) == Role::Knight);
    assert(bits::on(board.of_role(Role::Bishop), s) <==> board.role_on(s) == Role::Bishop);
    assert(bits::on(board.of_role(Role::Rook), s) <==> board.role_on(s) == Role::Rook);
    assert(bits::on(board.of_role(Role::Queen), s) <==> board.role_on(s) == Role::Queen);
    assert(bits::on(board.of_role(Role::King), s) <==> board.role_on(s) == Role::King);
}

/// A king stands where the one king of its player stands.
pub proof fn law_a_king_is_found_where_it_stands(board: Board, color: Color, s: int)
    requires
        board.sole_king(color, s),
    ensures
        board.king_square(color) == Some(s as u8),
        0 <= s < 64,
{
    assert(board.mine(Role::King, color)(s));
    let found = choose|t: int| board.sole_king(color, t);
    assert(board.mine(Role::King, color)(found));
}

/// What a move does can be read off it: a pawn takes a pawn en passant, a king castles
/// and takes nothing, and nothing promotes but what says so.
pub proof fn law_a_move_says_what_it_does(m: Move)
    ensures
        m is EnPassant ==> m.moved() == Role::Pawn && m.captured() == Some(Role::Pawn),
        m is Castle ==> m.moved() == Role::King && m.captured() is None,
        m is Put ==> m.captured() is None && m.origin() is None,
        !(m is Normal) ==> m.promoted() is None,
        m matches Move::Normal { role, from, capture, to, promotion } ==> m.moved() == role
            && m.origin() == Some(from) && m.captured() == capture && m.target() == to
            && m.promoted() == promotion,
        m matches Move::EnPassant { from, to } ==> m.origin() == Some(from) && m.target() == to,
        m matches Move::Castle { king, rook } ==> m.origin() == Some(king) && m.target() == rook,
{
}

/// A knight goes as far along one way as the other allows: the product of the two
/// distances is two. A bishop goes as far along the one as along the other, a rook along one
/// of them only, and a queen as either.
pub proof fn law_how_far_the_pieces_go(color: Color, from: int, to: int, occupied: u64)
    requires
        0 <= from < 64,
        0 <= to < 64,
    ensures
        ({
            let files = gap(from % 8, to % 8);
            let ranks = gap(from / 8, to / 8);
            &&& reaches(Role::Knight, color, from, to, occupied) <==> files * ranks == 2
            &&& reaches(Role::Bishop, color, from, to, occupied) ==> files == ranks && files > 0
            &&& reaches(Role::Rook, color, from, to, occupied) ==> files * ranks == 0 && files
                + ranks > 0
            &&& reaches(Role::Queen, color, from, to, occupied) <==> reaches(
                Role::Bishop,
                color,
                from,
                to,
                occupied,
            ) || reaches(Role::Rook, color, from, to, occupied)
            &&& reaches(Role::King, color, from, to, occupied) <==> 0 < larger(files, ranks) <= 1
            &&& reaches(Role::Pawn, color, from, to, occupied) <==> files == 1 && to / 8 - from / 8
                == (if color == Color::White { 1int } else { -1 })
        }),
{
    let files = gap(from % 8, to % 8);
    let ranks = gap(from / 8, to / 8);
    assert(0 <= files <= 7 && 0 <= ranks <= 7);
    assert((files * ranks == 2) == (files == 1 && ranks == 2 || files == 2 && ranks == 1))
        by (nonlinear_arith)
        requires
            0 <= files <= 7,
            0 <= ranks <= 7,
    ;
    assert(files == 0 || ranks == 0 ==> files * ranks == 0) by (nonlinear_arith);
}

} // verus!
