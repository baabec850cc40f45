//! The rules of chess, as [`shakmaty`] knows them.
//!
//! What a position's legal moves are, what a move leads to, how a position is
//! hashed and how positions and moves are written come from that crate. The
//! rest of the library sees plain values: each function here takes a
//! [`Position`] or a text apart, makes the call, and puts the answer together
//! again. A [`Position`] that is no chess position (two pieces on one square, a
//! missing king) has no legal moves.

use vstd::prelude::*;

use shakmaty::san::San as OutsideSan;
use shakmaty::Position as _;
use shakmaty::{Board as OutsideBoard, Move as OutsideMove, Role as OutsideRole};

use crate::chess;
use crate::chess::{Board, Color, Move, Position, Role};

verus! {

/// [`shakmaty::Chess`], a position that the crate can play on.
#[verifier::external_type_specification]
#[verifier::external_body]
pub struct ExChess(shakmaty::Chess);

/// [`shakmaty::Setup`], a position that may not be playable.
#[verifier::external_type_specification]
#[verifier::external_body]
pub struct ExSetup(shakmaty::Setup);

/// [`shakmaty::Role`].
#[verifier::external_type_specification]
#[verifier::external_body]
pub struct ExRole(OutsideRole);

/// [`shakmaty::Move`].
#[verifier::external_type_specification]
#[verifier::external_body]
pub struct ExMove(OutsideMove);

/// [`shakmaty::Board`].
#[verifier::external_type_specification]
#[verifier::external_body]
pub struct ExBoard(OutsideBoard);

/// [`shakmaty::san::San`].
#[verifier::external_type_specification]
#[verifier::external_body]
pub struct ExSan(OutsideSan);

/// The legal moves of a position, in the order in which
/// [`shakmaty::Position::legal_moves`] generates them.
pub uninterp spec fn legal(position: Position) -> Seq<Move>;

/// The position that [`shakmaty::Position::play_unchecked`] reaches by a legal
/// move.
pub uninterp spec fn after(position: Position, m: Move) -> Position;

/// What [`shakmaty::Position::zobrist_hash`] makes of the pieces, the player to
/// move, the castling rights and the en passant square. The clocks are not part
/// of it.
pub uninterp spec fn zobrist(
    board: Board,
    turn: Color,
    castling_rights: u64,
    ep_square: Option<u8>,
) -> u64;

/// What parsing a text as a [`shakmaty::fen::Fen`] gives: the position written
/// there, which need not be playable, or the message of the parser.
pub uninterp spec fn fen_reading(text: Seq<char>) -> Result<Position, Seq<char>>;

/// What [`shakmaty::Setup::position`] makes of a position: the position that is
/// played, or the message that says why there is none.
pub uninterp spec fn playable(position: Position) -> Result<Position, Seq<char>>;

/// The text of [`shakmaty::fen::Fen::from_position`], with the en passant square
/// only where a capture there is legal.
pub uninterp spec fn fen_text(position: Position) -> Seq<char>;

/// The move that [`shakmaty::uci::UciMove::to_move`] finds in a position.
pub uninterp spec fn uci_move(position: Position, uci: UciMove) -> Option<Move>;

/// The text of [`shakmaty::san::San::from_move`] in a position.
pub uninterp spec fn san_text(position: Position, m: Move) -> Seq<char>;

/// What parsing a text as [`shakmaty::san::San`] gives.
pub uninterp spec fn san_reading(text: Seq<char>) -> Option<SanMove>;

/// The move that [`shakmaty::san::San::to_move`] finds in a position.
pub uninterp spec fn san_move(position: Position, san: SanMove) -> Option<Move>;

/// A position or a message, with the text of the message as it stands.
pub open spec fn reading_of(read: Result<Position, String>) -> Result<Position, Seq<char>> {
    match read {
        Ok(position) => Ok(position),
        Err(message) => Err(message@),
    }
}

/// A move as UCI writes it, before it is matched with a position.
#[derive(Clone, Copy, PartialEq, Eq, Debug, Structural)]
pub enum UciMove {
    /// From one square to another, perhaps with a promotion.
    Normal { from: u8, to: u8, promotion: Option<Role> },
    /// A piece dropped on a square.
    Put { role: Role, to: u8 },
    /// No move at all.
    Null,
}

/// A move as algebraic notation writes it, before it is matched with a position.
/// Files and ranks are numbers from 0 to 7.
#[derive(Clone, Copy, PartialEq, Eq, Debug, Structural)]
pub enum SanMove {
    /// A piece goes to a square, from a file or a rank if that has to be said.
    Normal {
        role: Role,
        file: Option<u8>,
        rank: Option<u8>,
        capture: bool,
        to: u8,
        promotion: Option<Role>,
    },
    /// Castling, on the king's side or the other.
    Castle { king_side: bool },
    /// A piece dropped on a square.
    Put { role: Role, to: u8 },
    /// No move at all.
    Null,
}

/// Puts a role into the outside crate's terms.
#[verifier::external_body]
fn outside_role(role: Role) -> (outside: OutsideRole) {
    match role {
        Role::Pawn => OutsideRole::Pawn,
        Role::Knight => OutsideRole::Knight,
        Role::Bishop => OutsideRole::Bishop,
        Role::Rook => OutsideRole::Rook,
        Role::Queen => OutsideRole::Queen,
        Role::King => OutsideRole::King,
    }
}

/// Takes a role out of the outside crate's terms.
#[verifier::external_body]
fn inside_role(role: OutsideRole) -> (inside: Role) {
    match role {
        OutsideRole::Pawn => Role::Pawn,
        OutsideRole::Knight => Role::Knight,
        OutsideRole::Bishop => Role::Bishop,
        OutsideRole::Rook => Role::Rook,
        OutsideRole::Queen => Role::Queen,
        OutsideRole::King => Role::King,
    }
}

/// Puts a move into the outside crate's terms. The squares have to be on the
/// board: [`shakmaty::Square::new`] panics beyond it.
#[verifier::external_body]
fn outside_move(m: Move) -> (outside: OutsideMove)
    requires
        m.on_board(),
{
    let square = |s: u8| shakmaty::Square::new(s as u32);
    match m {
        Move::Normal { role, from, capture, to, promotion } => OutsideMove::Normal {
            role: outside_role(role),
            from: square(from),
            capture: capture.map(outside_role),
            to: square(to),
            promotion: promotion.map(outside_role),
        },
        Move::EnPassant { from, to } => OutsideMove::EnPassant { from: square(from), to: square(to) },
        Move::Castle { king, rook } => OutsideMove::Castle { king: square(king), rook: square(rook) },
        Move::Put { role, to } => OutsideMove::Put { role: outside_role(role), to: square(to) },
    }
}

/// Takes a move out of the outside crate's terms.
#[verifier::external_body]
fn inside_move(m: OutsideMove) -> (inside: Move) {
    match m {
        OutsideMove::Normal { role, from, capture, to, promotion } => Move::Normal {
            role: inside_role(role),
            from: from as u8,
            capture: capture.map(inside_role),
            to: to as u8,
            promotion: promotion.map(inside_role),
        },
        OutsideMove::EnPassant { from, to } => Move::EnPassant { from: from as u8, to: to as u8 },
        OutsideMove::Castle { king, rook } => Move::Castle { king: king as u8, rook: rook as u8 },
        OutsideMove::Put { role, to } => Move::Put { role: inside_role(role), to: to as u8 },
    }
}

/// Puts a move in algebraic notation into the outside crate's terms. Squares, files
/// and ranks have to be on the board: [`shakmaty::Square::new`],
/// [`shakmaty::File::new`] and [`shakmaty::Rank::new`] panic beyond it.
#[verifier::external_body]
fn outside_san(san: SanMove) -> (outside: OutsideSan)
    requires
        san.on_board(),
{
    let square = |s: u8| shakmaty::Square::new(s as u32);
    match san {
        SanMove::Normal { role, file, rank, capture, to, promotion } => {
            let file = file.map(|file| shakmaty::File::new(file as u32));
            let rank = rank.map(|rank| shakmaty::Rank::new(rank as u32));
            let (role, promotion) = (outside_role(role), promotion.map(outside_role));
            OutsideSan::Normal { role, file, rank, capture, to: square(to), promotion }
        },
        SanMove::Castle { king_side } => OutsideSan::Castle(
            shakmaty::CastlingSide::from_king_side(king_side),
        ),
        SanMove::Put { role, to } => OutsideSan::Put { role: outside_role(role), to: square(to) },
        SanMove::Null => OutsideSan::Null,
    }
}

/// Puts the pieces into the outside crate's terms, which
/// [`shakmaty::Board::try_from_bitboards`] refuses where two of them share a
/// square.
#[verifier::external_body]
fn outside_board(board: &Board) -> (outside: Option<OutsideBoard>) {
    let by_role = shakmaty::ByRole {
        pawn: shakmaty::Bitboard(board.pawns),
        knight: shakmaty::Bitboard(board.knights),
        bishop: shakmaty::Bitboard(board.bishops),
        rook: shakmaty::Bitboard(board.rooks),
        queen: shakmaty::Bitboard(board.queens),
        king: shakmaty::Bitboard(board.kings),
    };
    let by_color = shakmaty::ByColor {
        black: shakmaty::Bitboard(board.black),
        white: shakmaty::Bitboard(board.white),
    };
    OutsideBoard::try_from_bitboards(by_role, by_color).ok()
}

/// Puts a position into the outside crate's terms, which have no place for two
/// pieces on one square or for a square off the board, and in which the moves
/// count from 1.
#[verifier::external_body]
fn outside_setup(position: &Position) -> (outside: Option<shakmaty::Setup>) {
    let mut setup = shakmaty::Setup::empty();
    setup.board = outside_board(&position.board)?;
    setup.turn = shakmaty::Color::from_white(matches!(position.turn, Color::White));
    setup.castling_rights = shakmaty::Bitboard(position.castling_rights);
    setup.ep_square = position.ep_square.map(shakmaty::Square::try_from).transpose().ok()?;
    setup.halfmoves = position.halfmoves;
    let first = core::num::NonZeroU32::MIN;
    setup.fullmoves = core::num::NonZeroU32::new(position.fullmoves).unwrap_or(first);
    Some(setup)
}

/// Takes a position out of the outside crate's terms.
#[verifier::external_body]
fn inside_setup(setup: shakmaty::Setup) -> (inside: Position) {
    let (roles, colors) = setup.board.into_bitboards();
    let board = Board {
        pawns: roles.pawn.0, knights: roles.knight.0, bishops: roles.bishop.0,
        rooks: roles.rook.0, queens: roles.queen.0, kings: roles.king.0,
        white: colors.white.0, black: colors.black.0,
    };
    Position {
        board,
        turn: setup.turn.fold_wb(Color::White, Color::Black),
        castling_rights: setup.castling_rights.0,
        ep_square: setup.ep_square.map(|square| square as u8),
        halfmoves: setup.halfmoves,
        fullmoves: setup.fullmoves.get(),
    }
}

/// The playable position of the outside crate, if there is one. A check that no
/// game could have led to is let pass, so that every position reached by play
/// is found again. More material than a game can have is not: a
/// [`shakmaty::MoveList`] has no room for all the moves there could be, and
/// generating them would panic.
#[verifier::external_body]
fn outside(position: &Position) -> (outside: Option<shakmaty::Chess>) {
    let setup = outside_setup(position)?;
    setup
        .position::<shakmaty::Chess>(shakmaty::CastlingMode::Standard)
        .or_else(shakmaty::PositionError::ignore_impossible_check)
        .ok()
}

/// A position, and beside it the same position in the outside crate's terms, if it
/// can be played on. The fields are private, and the functions that make a seat
/// ([`Seat::sit`] and [`play`]) give both the same position.
pub(crate) struct Seat {
    position: Position,
    chess: Option<shakmaty::Chess>,
}

impl Seat {
    /// The position.
    pub(crate) closed spec fn here(self) -> Position {
        self.position
    }

    /// A seat at a position.
    pub(crate) fn sit(position: Position) -> (seat: Seat)
        ensures
            seat.here() == position,
    {
        let chess = outside(&position);
        Seat { position, chess }
    }

    /// The position.
    pub(crate) fn position(&self) -> (position: &Position)
        ensures
            *position == self.here(),
    {
        &self.position
    }
}

/// [`shakmaty::Position::legal_moves`] generates the legal moves of a position.
/// The contract names them, and says that their squares are on the board: every
/// [`shakmaty::Square`] is one of the 64.
#[verifier::external_body]
pub(crate) fn generate(seat: &Seat) -> (moves: Vec<Move>)
    ensures
        moves@ == legal(seat.here()),
        forall|i: int| 0 <= i < moves.len() ==> (#[trigger] moves@[i]).on_board(),
{
    seat.chess.as_ref().map_or(
        Vec::new(),
        |chess| chess.legal_moves().into_iter().map(inside_move).collect(),
    )
}

/// [`shakmaty::Position::play_unchecked`] plays a legal move; on another move it
/// may panic. The contract names the position reached and says what becomes of
/// the turn and of the clock of reversible moves: it restarts at a capture or a
/// pawn move, else it counts on and stays at its largest value.
#[verifier::external_body]
pub(crate) fn play(seat: &Seat, m: Move) -> (reached: Seat)
    requires
        legal(seat.here()).contains(m),
        m.on_board(),
    ensures
        reached.here() == after(seat.here(), m),
        reached.here().turn == seat.here().turn.opposite(),
        m.is_zeroing() ==> reached.here().halfmoves == 0,
        !m.is_zeroing() && seat.here().halfmoves < u32::MAX ==> reached.here().halfmoves
            == seat.here().halfmoves + 1,
        !m.is_zeroing() && seat.here().halfmoves == u32::MAX ==> reached.here().halfmoves
            == u32::MAX,
{
    seat.chess.clone().map_or(Seat { position: seat.position, chess: None }, |mut chess| {
        chess.play_unchecked(outside_move(m));
        let position = inside_setup(chess.to_setup(shakmaty::EnPassantMode::Always));
        Seat { position, chess: Some(chess) }
    })
}

/// [`shakmaty::Position::zobrist_hash`] with 64 bits, where the en passant square
/// counts only if a capture there is legal. The contract names the hash as a
/// function of what it reads, which leaves out the two clocks.
#[verifier::external_body]
pub(crate) fn zobrist_hash(seat: &Seat) -> (hash: u64)
    ensures
        hash == zobrist(
            seat.here().board,
            seat.here().turn,
            seat.here().castling_rights,
            seat.here().ep_square,
        ),
{
    seat.chess.as_ref().map_or(0, |chess| {
        chess.zobrist_hash::<shakmaty::zobrist::Zobrist64>(shakmaty::EnPassantMode::Legal).0
    })
}

/// Parsing a text as [`shakmaty::fen::Fen`]. The contract names the position
/// written there or the message of the error.
#[verifier::external_body]
pub(crate) fn parse_fen(text: &str) -> (read: Result<Position, String>)
    ensures
        reading_of(read) == fen_reading(text@),
{
    match text.parse::<shakmaty::fen::Fen>() {
        Ok(fen) => Ok(inside_setup(fen.into_setup())),
        Err(error) => Err(error.to_string()),
    }
}

/// [`shakmaty::Setup::position`] in its strict form, for standard chess. The
/// contract names the position to play or the message of the error.
#[verifier::external_body]
pub(crate) fn set_up(position: &Position) -> (ready: Result<Position, String>)
    ensures
        reading_of(ready) == playable(*position),
{
    let setup = outside_setup(position).ok_or(String::new())?;
    match setup.position::<shakmaty::Chess>(shakmaty::CastlingMode::Standard) {
        Ok(chess) => Ok(inside_setup(chess.to_setup(shakmaty::EnPassantMode::Always))),
        Err(error) => Err(error.to_string()),
    }
}

/// The text of [`shakmaty::fen::Fen::from_position`] with
/// [`shakmaty::EnPassantMode::Legal`]; nothing for a position that cannot be
/// played. The contract names it.
#[verifier::external_body]
pub(crate) fn write_fen(position: &Position) -> (text: String)
    ensures
        text@ == fen_text(*position),
{
    outside(position).map_or(String::new(), |chess| {
        shakmaty::fen::Fen::from_position(&chess, shakmaty::EnPassantMode::Legal).to_string()
    })
}

/// Parsing a text as [`shakmaty::uci::UciMove`]. The contract says which texts
/// are moves, and which moves they are.
#[verifier::external_body]
pub(crate) fn parse_uci(text: &str) -> (read: Option<UciMove>)
    ensures
        read == uci_reading(text@),
{
    match text.parse::<shakmaty::uci::UciMove>().ok()? {
        shakmaty::uci::UciMove::Normal { from, to, promotion } => Some(
            UciMove::Normal { from: from as u8, to: to as u8, promotion: promotion.map(inside_role) },
        ),
        shakmaty::uci::UciMove::Put { role, to } => Some(
            UciMove::Put { role: inside_role(role), to: to as u8 },
        ),
        shakmaty::uci::UciMove::Null => Some(UciMove::Null),
    }
}

/// [`shakmaty::uci::UciMove::to_move`] finds the legal move of a position that a
/// text stands for. The contract names the move found, and says that it is
/// legal and stands for what was asked, and that one is found if there is one.
#[verifier::external_body]
pub(crate) fn find_uci(position: &Position, uci: UciMove) -> (found: Option<Move>)
    requires
        uci.on_board(),
    ensures
        found == uci_move(*position, uci),
        found matches Some(m) ==> {
            &&& legal(*position).contains(m)
            &&& m.on_board()
            &&& stands_for(uci, m)
        },
        found is None ==> !exists|m: Move|
            legal(*position).contains(m) && #[trigger] stands_for(uci, m),
{
    let square = |s: u8| shakmaty::Square::new(s as u32);
    let outside_uci = match uci {
        UciMove::Normal { from, to, promotion } => shakmaty::uci::UciMove::Normal {
            from: square(from),
            to: square(to),
            promotion: promotion.map(outside_role),
        },
        UciMove::Put { role, to } => shakmaty::uci::UciMove::Put {
            role: outside_role(role),
            to: square(to),
        },
        UciMove::Null => shakmaty::uci::UciMove::Null,
    };
    outside_uci.to_move(&outside(position)?).ok().map(inside_move)
}

/// [`shakmaty::uci::UciMove::from_standard`] and the text it prints as. The
/// contract says what the text is.
#[verifier::external_body]
pub(crate) fn write_uci(m: Move) -> (text: String)
    requires
        m.on_board(),
    ensures
        text@ == uci_writing(standard(m)),
{
    shakmaty::uci::UciMove::from_standard(outside_move(m)).to_string()
}

/// [`shakmaty::san::San::from_move`] and the text it prints as; nothing for a
/// position that cannot be played. The contract names the text.
#[verifier::external_body]
pub(crate) fn write_san(position: &Position, m: Move) -> (text: String)
    requires
        m.on_board(),
    ensures
        text@ == san_text(*position, m),
{
    outside(position).map_or(String::new(), |chess| {
        OutsideSan::from_move(&chess, outside_move(m)).to_string()
    })
}

/// Parsing a text as [`shakmaty::san::San`]. The contract names what is read, and
/// says that its squares, files and ranks are on the board.
#[verifier::external_body]
pub(crate) fn parse_san(text: &str) -> (read: Option<SanMove>)
    ensures
        read == san_reading(text@),
        read matches Some(san) ==> san.on_board(),
{
    match text.parse::<OutsideSan>().ok()? {
        OutsideSan::Normal { role, file, rank, capture, to, promotion } => {
            let (file, rank) = (file.map(|file| file as u8), rank.map(|rank| rank as u8));
            let (role, promotion) = (inside_role(role), promotion.map(inside_role));
            Some(SanMove::Normal { role, file, rank, capture, to: to as u8, promotion })
        },
        OutsideSan::Castle(side) => Some(SanMove::Castle { king_side: side.is_king_side() }),
        OutsideSan::Put { role, to } => Some(
            SanMove::Put { role: inside_role(role), to: to as u8 },
        ),
        OutsideSan::Null => Some(SanMove::Null),
    }
}

/// [`shakmaty::san::San::to_move`] finds the legal move of a position that algebraic
/// notation stands for. The contract names the move found, and says that it is
/// legal.
#[verifier::external_body]
pub(crate) fn find_san(position: &Position, san: SanMove) -> (found: Option<Move>)
    requires
        san.on_board(),
    ensures
        found == san_move(*position, san),
        found matches Some(m) ==> legal(*position).contains(m) && m.on_board(),
{
    outside_san(san).to_move(&outside(position)?).ok().map(inside_move)
}

/// The square that a file and a rank name, such as `e` and `4`.
pub open spec fn square_named(file: char, rank: char) -> Option<u8> {
    if 'a' <= file <= 'h' && '1' <= rank <= '8' {
        Some(((rank as int - '1' as int) * 8 + (file as int - 'a' as int)) as u8)
    } else {
        None
    }
}

/// The role that a letter stands for, in either case.
pub open spec fn role_named(letter: char) -> Option<Role> {
    if letter == 'p' || letter == 'P' {
        Some(Role::Pawn)
    } else if letter == 'n' || letter == 'N' {
        Some(Role::Knight)
    } else if letter == 'b' || letter == 'B' {
        Some(Role::Bishop)
    } else if letter == 'r' || letter == 'R' {
        Some(Role::Rook)
    } else if letter == 'q' || letter == 'Q' {
        Some(Role::Queen)
    } else if letter == 'k' || letter == 'K' {
        Some(Role::King)
    } else {
        None
    }
}

/// The move that a text in UCI's long algebraic notation writes: `0000`, a drop
/// such as `N@f3`, or two squares and perhaps the letter of a promotion.
pub open spec fn uci_reading(text: Seq<char>) -> Option<UciMove> {
    if text == seq!['0', '0', '0', '0'] {
        Some(UciMove::Null)
    } else if text.len() == 4 && text[1] == '@' {
        match (role_named(text[0]), square_named(text[2], text[3])) {
            (Some(role), Some(to)) => Some(UciMove::Put { role, to }),
            _ => None,
        }
    } else if text.len() == 4 {
        match (square_named(text[0], text[1]), square_named(text[2], text[3])) {
            (Some(from), Some(to)) => Some(UciMove::Normal { from, to, promotion: None }),
            _ => None,
        }
    } else if text.len() == 5 {
        match (
            square_named(text[0], text[1]),
            square_named(text[2], text[3]),
            role_named(text[4]),
        ) {
            (Some(from), Some(to), Some(role)) => Some(
                UciMove::Normal { from, to, promotion: Some(role) },
            ),
            _ => None,
        }
    } else {
        None
    }
}

/// The name of a square, such as `e4`.
pub open spec fn square_name(s: u8) -> Seq<char> {
    seq![
        ('a' as int + chess::file_of(s as int)) as char,
        ('1' as int + chess::rank_of(s as int)) as char,
    ]
}

/// How UCI writes a move.
pub open spec fn uci_writing(uci: UciMove) -> Seq<char> {
    match uci {
        UciMove::Normal { from, to, promotion: None } => square_name(from) + square_name(to),
        UciMove::Normal { from, to, promotion: Some(role) } => square_name(from) + square_name(to)
            + seq![role.letter()],
        UciMove::Put { role, to } => seq![role.capital(), '@'] + square_name(to),
        UciMove::Null => seq!['0', '0', '0', '0'],
    }
}

/// A move in the form of standard chess, where castling is written as the two
/// steps of the king.
pub open spec fn standard(m: Move) -> UciMove {
    match m {
        Move::Castle { king, rook } => UciMove::Normal {
            from: king,
            to: (8 * chess::rank_of(king as int) + if king < rook { 6int } else { 2int }) as u8,
            promotion: None,
        },
        _ => taking_the_rook(m),
    }
}

/// A move in the form in which castling is written as the king taking its own
/// rook.
pub open spec fn taking_the_rook(m: Move) -> UciMove {
    match m {
        Move::Normal { from, to, promotion, .. } => UciMove::Normal { from, to, promotion },
        Move::EnPassant { from, to } => UciMove::Normal { from, to, promotion: None },
        Move::Castle { king, rook } => UciMove::Normal { from: king, to: rook, promotion: None },
        Move::Put { role, to } => UciMove::Put { role, to },
    }
}

/// Whether a move can be written in this way: both forms of castling are read, and
/// a promotion is overlooked behind a capture en passant.
pub open spec fn stands_for(uci: UciMove, m: Move) -> bool {
    ||| uci == standard(m)
    ||| uci == taking_the_rook(m)
    ||| m is EnPassant && (match uci {
        UciMove::Normal { from, to, .. } => m.origin() == Some(from) && m.target() == to,
        _ => false,
    })
}

impl SanMove {
    /// Whether every square, file and rank that is named is on the board.
    pub open spec fn on_board(self) -> bool {
        match self {
            SanMove::Normal { file, rank, to, .. } => {
                &&& to < 64
                &&& file matches Some(file) ==> file < 8
                &&& rank matches Some(rank) ==> rank < 8
            },
            SanMove::Put { to, .. } => to < 64,
            _ => true,
        }
    }
}

impl UciMove {
    /// Whether every square that is named is on the board.
    pub open spec fn on_board(self) -> bool {
        match self {
            UciMove::Normal { from, to, .. } => from < 64 && to < 64,
            UciMove::Put { to, .. } => to < 64,
            UciMove::Null => true,
        }
    }
}

impl Move {
    /// Whether the move restarts the clock of reversible moves: a capture or a
    /// move of a pawn.
    pub open spec fn is_zeroing(self) -> bool {
        self.captured() is Some || self.moved() == Role::Pawn
    }

    /// The move in UCI's notation.
    pub fn to_uci(self) -> (text: String)
        requires
            self.on_board(),
        ensures
            text@ == uci_writing(standard(self)),
    {
        write_uci(self)
    }
}

/// A move that the engine writes is understood as that move when it is read.
pub proof fn law_a_written_move_is_understood(m: Move)
    requires
        m.on_board(),
    ensures
        uci_reading(uci_writing(standard(m))) == Some(standard(m)),
        stands_for(standard(m), m),
{
    let uci = standard(m);
    let text = uci_writing(uci);
    match uci {
        UciMove::Normal { from, to, promotion } => {
            lemma_square_name(from);
            lemma_square_name(to);
            assert(text[0] == square_name(from)[0]);
            assert(text[1] == square_name(from)[1]);
            assert(text[2] == square_name(to)[0]);
            assert(text[3] == square_name(to)[1]);
            if let Some(role) = promotion {
                assert(text[4] == role.letter());
            }
        },
        UciMove::Put { role, to } => {
            lemma_square_name(to);
            assert(text[0] == role.capital());
            assert(text[1] == '@');
            assert(text[2] == square_name(to)[0]);
            assert(text[3] == square_name(to)[1]);
        },
        UciMove::Null => {},
    }
}

pub(crate) proof fn lemma_square_name(s: u8)
    requires
        s < 64,
    ensures
        square_named(square_name(s)[0], square_name(s)[1]) == Some(s),
        square_name(s)[0] != '0',
        'a' <= square_name(s)[0] <= 'h',
        '1' <= square_name(s)[1] <= '8',
{
}

/// A move is written by its squares, each a file from `a` and a rank from `1`, with the
/// letter of a promotion behind them; castling is written as the king's two steps, to the
/// side of the rook.
pub proof fn law_a_move_is_written_by_its_squares(m: Move)
    requires
        m.on_board(),
    ensures
        ({
            let written = uci_writing(standard(m));
            &&& m matches Move::Normal { from, to, promotion, .. } ==> {
                &&& written.len() == (if promotion is Some { 5int } else { 4 })
                &&& written[0] as int == 97 + from % 8 && written[1] as int == 49 + from / 8
                &&& written[2] as int == 97 + to % 8 && written[3] as int == 49 + to / 8
                &&& promotion == Some(Role::Queen) ==> written[4] == 'q'
                &&& promotion == Some(Role::Rook) ==> written[4] == 'r'
                &&& promotion == Some(Role::Bishop) ==> written[4] == 'b'
                &&& promotion == Some(Role::Knight) ==> written[4] == 'n'
            }
            &&& m matches Move::EnPassant { from, to } ==> {
                &&& written.len() == 4
                &&& written[0] as int == 97 + from % 8 && written[1] as int == 49 + from / 8
                &&& written[2] as int == 97 + to % 8 && written[3] as int == 49 + to / 8
            }
            &&& m matches Move::Castle { king, rook } ==> {
                &&& written.len() == 4
                &&& written[0] as int == 97 + king % 8 && written[1] as int == 49 + king / 8
                &&& written[2] == (if king < rook { 'g' } else { 'c' }) && written[3] == written[1]
            }
        }),
        m matches Move::Castle { king, rook } ==> stands_for(
            UciMove::Normal { from: king, to: rook, promotion: None },
            m,
        ),
{
    match standard(m) {
        UciMove::Normal { from, to, promotion } => {
            lemma_square_name(from);
            lemma_square_name(to);
        },
        _ => {},
    }
}

} // verus!
