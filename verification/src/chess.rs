//! The chess rules, which the `shakmaty` crate provides: positions, the legal
//! moves of a position, and moves in standard algebraic notation. A position
//! is seen through its FEN record; what the rules engine computes is named as
//! a function of that record.

use shakmaty::fen::Fen;
use shakmaty::san::{San, SanPlus};
use shakmaty::{Chess, Color, EnPassantMode, Move, Position as Rules, Square};
use vstd::prelude::*;

verus! {

/// A position of standard chess as the rules engine holds it.
#[verifier::external_type_specification]
#[verifier::external_body]
pub struct ExChess(shakmaty::Chess);

/// A move as the rules engine holds it.
#[verifier::external_type_specification]
#[verifier::external_body]
pub struct ExMove(shakmaty::Move);

/// The kind of a piece. Pieces are numbered from 1 (pawn) to 6 (king).
#[derive(Debug, Clone, Copy, PartialEq, Eq, Structural)]
pub enum Role {
    Pawn,
    Knight,
    Bishop,
    Rook,
    Queen,
    King,
}

impl Role {
    /// The number of the role: 1 for a pawn up to 6 for the king.
    pub open spec fn spec_value(self) -> i32 {
        match self {
            Role::Pawn => 1,
            Role::Knight => 2,
            Role::Bishop => 3,
            Role::Rook => 4,
            Role::Queen => 5,
            Role::King => 6,
        }
    }

    /// The role of a number: 1 for a pawn up to 5 for a queen, and the king
    /// for every other number.
    pub open spec fn spec_from_value(n: u8) -> Role {
        if n == 1 {
            Role::Pawn
        } else if n == 2 {
            Role::Knight
        } else if n == 3 {
            Role::Bishop
        } else if n == 4 {
            Role::Rook
        } else if n == 5 {
            Role::Queen
        } else {
            Role::King
        }
    }

    /// The role of a number: 1 for a pawn up to 5 for a queen, and the king
    /// for every other number.
    #[verifier::when_used_as_spec(spec_from_value)]
    pub fn from_value(n: u8) -> (r: Role)
        ensures
            r == Self::spec_from_value(n),
    {
        if n == 1 {
            Role::Pawn
        } else if n == 2 {
            Role::Knight
        } else if n == 3 {
            Role::Bishop
        } else if n == 4 {
            Role::Rook
        } else if n == 5 {
            Role::Queen
        } else {
            Role::King
        }
    }

    /// The number of the role: 1 for a pawn up to 6 for the king.
    #[verifier::when_used_as_spec(spec_value)]
    pub fn value(self) -> (r: i32)
        ensures
            r == self.spec_value(),
    {
        match self {
            Role::Pawn => 1,
            Role::Knight => 2,
            Role::Bishop => 3,
            Role::Rook => 4,
            Role::Queen => 5,
            Role::King => 6,
        }
    }
}

/// The side of the board on which a castling move is made.
#[derive(Debug, Clone, Copy, PartialEq, Eq, Structural)]
pub enum CastlingSide {
    KingSide,
    QueenSide,
}

/// A move, with squares numbered from 0 (a1) over 7 (h1) to 63 (h8).
#[derive(Debug, Clone, Copy, PartialEq, Eq, Structural)]
pub enum ChessMove {
    Normal { role: Role, from: u8, capture: Option<Role>, to: u8, promotion: Option<Role> },
    EnPassant { from: u8, to: u8 },
    Castle { king: u8, rook: u8 },
    Put { role: Role, to: u8 },
}

impl ChessMove {
    /// Every square of the move lies on the board.
    pub open spec fn wf(self) -> bool {
        match self {
            ChessMove::Normal { from, to, .. } => from < 64 && to < 64,
            ChessMove::EnPassant { from, to } => from < 64 && to < 64,
            ChessMove::Castle { king, rook } => king < 64 && rook < 64,
            ChessMove::Put { to, .. } => to < 64,
        }
    }

    /// The role of the piece that moves.
    pub open spec fn spec_role(&self) -> Role {
        match *self {
            ChessMove::Normal { role, .. } => role,
            ChessMove::Put { role, .. } => role,
            ChessMove::EnPassant { .. } => Role::Pawn,
            ChessMove::Castle { .. } => Role::King,
        }
    }

    /// The square the piece leaves; none for a piece that is put on the board.
    pub open spec fn spec_from(&self) -> Option<u8> {
        match *self {
            ChessMove::Normal { from, .. } => Some(from),
            ChessMove::EnPassant { from, .. } => Some(from),
            ChessMove::Castle { king, .. } => Some(king),
            ChessMove::Put { .. } => None,
        }
    }

    /// The target square; for a castling move, the square of the rook.
    pub open spec fn spec_to(&self) -> u8 {
        match *self {
            ChessMove::Normal { to, .. } => to,
            ChessMove::EnPassant { to, .. } => to,
            ChessMove::Put { to, .. } => to,
            ChessMove::Castle { rook, .. } => rook,
        }
    }

    /// The role of the captured piece, if the move captures.
    pub open spec fn spec_capture(&self) -> Option<Role> {
        match *self {
            ChessMove::Normal { capture, .. } => capture,
            ChessMove::EnPassant { .. } => Some(Role::Pawn),
            _ => None,
        }
    }

    /// The role a pawn is promoted to, if the move promotes.
    pub open spec fn spec_promotion(&self) -> Option<Role> {
        match *self {
            ChessMove::Normal { promotion, .. } => promotion,
            _ => None,
        }
    }

    /// The side of a castling move: the king's side when the king stands on
    /// the lower-numbered square.
    pub open spec fn spec_castling_side(&self) -> Option<CastlingSide> {
        match *self {
            ChessMove::Castle { king, rook } => if king < rook {
                Some(CastlingSide::KingSide)
            } else {
                Some(CastlingSide::QueenSide)
            },
            _ => None,
        }
    }

    /// The role of the piece that moves.
    #[verifier::when_used_as_spec(spec_role)]
    pub fn role(&self) -> (r: Role)
        ensures
            r == self.spec_role(),
    {
        match *self {
            ChessMove::Normal { role, .. } => role,
            ChessMove::Put { role, .. } => role,
            ChessMove::EnPassant { .. } => Role::Pawn,
            ChessMove::Castle { .. } => Role::King,
        }
    }

    /// The square the piece leaves; none for a piece that is put on the board.
    #[verifier::when_used_as_spec(spec_from)]
    pub fn from(&self) -> (r: Option<u8>)
        ensures
            r == self.spec_from(),
    {
        match *self {
            ChessMove::Normal { from, .. } => Some(from),
            ChessMove::EnPassant { from, .. } => Some(from),
            ChessMove::Castle { king, .. } => Some(king),
            ChessMove::Put { .. } => None,
        }
    }

    /// The target square; for a castling move, the square of the rook.
    #[verifier::when_used_as_spec(spec_to)]
    pub fn to(&self) -> (r: u8)
        ensures
            r == self.spec_to(),
    {
        match *self {
            ChessMove::Normal { to, .. } => to,
            ChessMove::EnPassant { to, .. } => to,
            ChessMove::Put { to, .. } => to,
            ChessMove::Castle { rook, .. } => rook,
        }
    }

    /// The role of the captured piece, if the move captures.
    #[verifier::when_used_as_spec(spec_capture)]
    pub fn capture(&self) -> (r: Option<Role>)
        ensures
            r == self.spec_capture(),
    {
        match *self {
            ChessMove::Normal { capture, .. } => capture,
            ChessMove::EnPassant { .. } => Some(Role::Pawn),
            _ => None,
        }
    }

    /// The role a pawn is promoted to, if the move promotes.
    #[verifier::when_used_as_spec(spec_promotion)]
    pub fn promotion(&self) -> (r: Option<Role>)
        ensures
            r == self.spec_promotion(),
    {
        match *self {
            ChessMove::Normal { promotion, .. } => promotion,
            _ => None,
        }
    }

    /// The side of a castling move.
    #[verifier::when_used_as_spec(spec_castling_side)]
    pub fn castling_side(&self) -> (r: Option<CastlingSide>)
        ensures
            r == self.spec_castling_side(),
    {
        match *self {
            ChessMove::Castle { king, rook } => if king < rook {
                Some(CastlingSide::KingSide)
            } else {
                Some(CastlingSide::QueenSide)
            },
            _ => None,
        }
    }

    /// Whether the move captures.
    pub fn is_capture(&self) -> (r: bool)
        ensures
            r == self.spec_capture().is_some(),
    {
        self.capture().is_some()
    }

    /// Whether the move captures a pawn in passing.
    pub fn is_en_passant(&self) -> (r: bool)
        ensures
            r == (self is EnPassant),
    {
        match *self {
            ChessMove::EnPassant { .. } => true,
            _ => false,
        }
    }

    /// Whether the move is a castling move.
    pub fn is_castle(&self) -> (r: bool)
        ensures
            r == (self is Castle),
    {
        match *self {
            ChessMove::Castle { .. } => true,
            _ => false,
        }
    }

    /// Whether the move promotes a pawn.
    pub fn is_promotion(&self) -> (r: bool)
        ensures
            r == self.spec_promotion().is_some(),
    {
        self.promotion().is_some()
    }

    /// Tells whether `self` and `other` are the same move.
    pub fn same(&self, other: &ChessMove) -> (r: bool)
        ensures
            r == (*self == *other),
    {
        *self == *other
    }
}

/// The FEN record of a position of the rules engine, with the en passant
/// square written after every double pawn push: board, side to move,
/// castling rights, en passant square and both move counters.
pub uninterp spec fn position_fen(chess: Chess) -> Seq<char>;

/// The variant and the fields of a move of the rules engine.
pub uninterp spec fn move_record(m: Move) -> ChessMove;

/// The legal moves of the position with the given FEN record, in the order
/// in which the rules engine generates them.
pub uninterp spec fn legal_moves_at(fen: Seq<char>) -> Seq<ChessMove>;

/// The FEN record of the position that a move leads to.
pub uninterp spec fn fen_after(fen: Seq<char>, m: ChessMove) -> Seq<char>;

/// Whether it is White's turn in the position with the given FEN record:
/// the second field of the record, which follows the first blank, is `w`.
pub open spec fn white_to_move_at(fen: Seq<char>) -> bool {
    exists|i: int|
        0 <= i && i + 1 < fen.len() && #[trigger] fen[i] == ' ' && fen[i + 1] == 'w' && (forall|
            j: int,
        |
            0 <= j < i ==> fen[j] != ' ')
}

/// The square that lies `delta` squares after the given square, as a set
/// of bits: bit `n` for square `n`. There is none where the step leaves the
/// board at its top or bottom, or passes over its edge to a file that is
/// more than two files away.
pub open spec fn step_square(square: u8, delta: int) -> u64 {
    if 0 <= square + delta <= 63 && -2 <= (square + delta) % 8 - square % 8 <= 2 {
        1u64 << ((square + delta) as u64)
    } else {
        0
    }
}

/// The squares that a pawn of White (or, where `white` is false, of Black)
/// on the given square attacks, as a set of bits: its two diagonal
/// neighbours one rank ahead, 7 and 9 squares on for White and back for
/// Black.
pub open spec fn pawn_attack_squares(white: bool, square: u8) -> u64 {
    if white {
        step_square(square, 7) | step_square(square, 9)
    } else {
        step_square(square, -7) | step_square(square, -9)
    }
}

/// The squares on which pawns stand, as a set of bits.
pub uninterp spec fn pawns_at(fen: Seq<char>) -> u64;

/// The squares on which pieces of the side that is not to move stand, as a
/// set of bits.
pub uninterp spec fn their_squares_at(fen: Seq<char>) -> u64;

/// Whether a pawn of the side that is not to move attacks the given
/// square: it stands on a square that a pawn of the side to move would
/// attack from there.
pub open spec fn pawn_guarded_at(fen: Seq<char>, square: u8) -> bool {
    pawn_attack_squares(white_to_move_at(fen), square) & pawns_at(fen) & their_squares_at(fen) != 0
}

/// Whether the king of the side to move is in check.
pub uninterp spec fn in_check_at(fen: Seq<char>) -> bool;

/// The legal move that a text in standard algebraic notation stands for in
/// a position, if it stands for exactly one.
pub uninterp spec fn san_move_at(fen: Seq<char>, san: Seq<char>) -> Option<ChessMove>;

/// The standard algebraic notation of a move in a position, with the suffix
/// for check or checkmate.
pub uninterp spec fn san_at(fen: Seq<char>, m: ChessMove) -> Seq<char>;

/// What a word of a list of moves stands for in a position.
#[derive(Debug, Clone, Copy, PartialEq, Eq, Structural)]
pub enum TokenMove {
    /// The word is no move in algebraic notation, such as a move number.
    NoMove,
    /// The word is a move in algebraic notation that names no legal move,
    /// or several.
    Illegal,
    /// The word names this legal move.
    Legal(ChessMove),
}

/// What a word stands for in a position, where a suffix for check or
/// checkmate is not looked at.
pub uninterp spec fn token_move_at(fen: Seq<char>, token: Seq<char>) -> TokenMove;

/// The FEN record of the starting position.
pub open spec fn initial_fen() -> Seq<char> {
    "rnbqkbnr/pppppppp/8/8/8/8/PPPPPPPP/RNBQKBNR w KQkq - 0 1"@
}

/// A position of a game of standard chess.
pub struct Position {
    chess: Chess,
}

impl View for Position {
    type V = Seq<char>;

    closed spec fn view(&self) -> Seq<char> {
        position_fen(self.chess)
    }
}

/// A move of the rules engine as a move of this library: the same variant
/// with the same fields, a role by its number from 1 to 6 and a square by
/// its number below 64.
#[verifier::external_body]
fn move_from_engine(m: &Move) -> (r: ChessMove)
    ensures
        r == move_record(*m),
        r.wf(),
{
    let kind = |r: shakmaty::Role| Role::from_value(u8::from(r));
    let sq = |s: Square| u8::from(s);
    match *m {
        Move::Normal { role, from, capture, to, promotion } => ChessMove::Normal { role: kind(role), from: sq(from), capture: capture.map(kind), to: sq(to), promotion: promotion.map(kind) },
        Move::EnPassant { from, to } => ChessMove::EnPassant { from: sq(from), to: sq(to) },
        Move::Castle { king, rook } => ChessMove::Castle { king: sq(king), rook: sq(rook) },
        Move::Put { role, to } => ChessMove::Put { role: kind(role), to: sq(to) },
    }
}

/// A move of this library as a move of the rules engine. `Square::new`
/// panics on a number that is no square.
#[verifier::external_body]
fn move_to_engine(m: &ChessMove) -> (r: Move)
    requires
        m.wf(),
    ensures
        move_record(r) == *m,
{
    let kind = |k: Role| shakmaty::Role::ALL[k.value() as usize - 1];
    let sq = |s: u8| Square::new(u32::from(s));
    match *m {
        ChessMove::Normal { role, from, capture, to, promotion } => Move::Normal { role: kind(role), from: sq(from), capture: capture.map(kind), to: sq(to), promotion: promotion.map(kind) },
        ChessMove::EnPassant { from, to } => Move::EnPassant { from: sq(from), to: sq(to) },
        ChessMove::Castle { king, rook } => Move::Castle { king: sq(king), rook: sq(rook) },
        ChessMove::Put { role, to } => Move::Put { role: kind(role), to: sq(to) },
    }
}

/// `Chess::default`: the starting position.
#[verifier::external_body]
fn engine_start() -> (r: Chess)
    ensures
        position_fen(r) == initial_fen(),
{
    Chess::default()
}

/// `Fen::from_position` and its `Display`: the FEN record of a position.
#[verifier::external_body]
fn engine_fen(chess: &Chess) -> (r: String)
    ensures
        r@ == position_fen(*chess),
{
    Fen::from_position(chess.clone(), EnPassantMode::Always).to_string()
}

/// `Position::legal_moves`: the legal moves, at most 256 of them (the
/// capacity of the engine's move list), none of which puts a piece on the
/// board in standard chess.
#[verifier::external_body]
fn engine_legal_moves(chess: &Chess) -> (r: Vec<Move>)
    ensures
        r@.len() == legal_moves_at(position_fen(*chess)).len(),
        r@.len() <= 256,
        forall|i: int|
            0 <= i < r@.len() ==> move_record(#[trigger] r@[i]) == legal_moves_at(
                position_fen(*chess),
            )[i] && move_record(r@[i]).spec_from().is_some(),
{
    chess.legal_moves().into_iter().collect()
}

/// `Position::turn`: whether White is to move.
#[verifier::external_body]
fn engine_white_to_move(chess: &Chess) -> (r: bool)
    ensures
        r == white_to_move_at(position_fen(*chess)),
{
    chess.turn() == Color::White
}

/// `attacks::pawn_attacks`: the squares that a pawn of the given colour on
/// the given square attacks. `Square::new` panics on a number that is no
/// square.
#[verifier::external_body]
fn engine_pawn_attacks(white: bool, square: u8) -> (r: u64)
    requires
        square < 64,
    ensures
        r == pawn_attack_squares(white, square),
{
    shakmaty::attacks::pawn_attacks(Color::from_white(white), Square::new(u32::from(square))).0
}

/// `Board::pawns` of the board of the position: the squares of the pawns.
#[verifier::external_body]
fn engine_pawns(chess: &Chess) -> (r: u64)
    ensures
        r == pawns_at(position_fen(*chess)),
{
    chess.board().pawns().0
}

/// `Position::them`: the squares of the pieces of the side that is not to
/// move.
#[verifier::external_body]
fn engine_them(chess: &Chess) -> (r: u64)
    ensures
        r == their_squares_at(position_fen(*chess)),
{
    chess.them().0
}

/// `Position::is_checkmate`: in check and without a legal move.
#[verifier::external_body]
fn engine_is_checkmate(chess: &Chess) -> (r: bool)
    ensures
        r == (in_check_at(position_fen(*chess)) && legal_moves_at(position_fen(*chess)).len()
            == 0),
{
    chess.is_checkmate()
}

/// `Position::is_stalemate`: not in check and without a legal move.
#[verifier::external_body]
fn engine_is_stalemate(chess: &Chess) -> (r: bool)
    ensures
        r == (!in_check_at(position_fen(*chess)) && legal_moves_at(position_fen(*chess)).len()
            == 0),
{
    chess.is_stalemate()
}

/// `SanPlus::from_ascii` and `San::to_move`: the one legal move that the
/// text names, or `None` where the text is no move in algebraic notation or
/// names no legal move or several.
#[verifier::external_body]
fn engine_san_to_move(chess: &Chess, san: &str) -> (r: Option<Move>)
    ensures
        r.is_some() == san_move_at(position_fen(*chess), san@).is_some(),
        r matches Some(m) ==> san_move_at(position_fen(*chess), san@) == Some(move_record(m))
            && legal_moves_at(position_fen(*chess)).contains(move_record(m)),
{
    let parsed = SanPlus::from_ascii(san.as_bytes()).ok()?;
    parsed.san.to_move(chess).ok()
}

/// `San::from_ascii` and `San::to_move`: `None` for a word that is no move
/// in algebraic notation; else the one legal move that the word names, or
/// `None` in its place where it names none or several.
#[verifier::external_body]
fn engine_token_move(chess: &Chess, token: &str) -> (r: Option<Option<Move>>)
    ensures
        match r {
            None => token_move_at(position_fen(*chess), token@) == TokenMove::NoMove,
            Some(None) => token_move_at(position_fen(*chess), token@) == TokenMove::Illegal,
            Some(Some(m)) => token_move_at(position_fen(*chess), token@) == TokenMove::Legal(
                move_record(m),
            ) && legal_moves_at(position_fen(*chess)).contains(move_record(m)),
        },
{
    San::from_ascii(token.as_bytes()).ok().map(|san| san.to_move(chess).ok())
}

/// `SanPlus::from_move_and_play_unchecked`: plays a legal move and gives its
/// notation, with the suffix that the new position calls for. The engine
/// may panic on a move that is not legal.
#[verifier::external_body]
fn engine_san_and_play(chess: &mut Chess, m: &Move) -> (r: String)
    requires
        legal_moves_at(position_fen(*old(chess))).contains(move_record(*m)),
    ensures
        r@ == san_at(position_fen(*old(chess)), move_record(*m)),
        position_fen(*final(chess)) == fen_after(position_fen(*old(chess)), move_record(*m)),
{
    SanPlus::from_move_and_play_unchecked(chess, m).to_string()
}

/// `Position::play_unchecked`: plays a legal move. The engine may panic on
/// a move that is not legal.
#[verifier::external_body]
fn engine_play(chess: &mut Chess, m: &Move)
    requires
        legal_moves_at(position_fen(*old(chess))).contains(move_record(*m)),
    ensures
        position_fen(*final(chess)) == fen_after(position_fen(*old(chess)), move_record(*m)),
{
    chess.play_unchecked(m)
}

/// Whether a list of moves holds a given move.
pub fn contains_move(moves: &Vec<ChessMove>, m: &ChessMove) -> (r: bool)
    ensures
        r == moves@.contains(*m),
{
    let mut i: usize = 0;
    while i < moves.len()
        invariant
            i <= moves@.len(),
            forall|j: int| 0 <= j < i ==> moves@[j] != *m,
        decreases moves@.len() - i,
    {
        if moves[i].same(m) {
            return true;
        }
        i = i + 1;
    }
    false
}

impl Position {
    /// The starting position.
    pub fn new() -> (r: Position)
        ensures
            r@ == initial_fen(),
    {
        Position { chess: engine_start() }
    }

    /// The FEN record of the position.
    pub fn fen(&self) -> (r: String)
        ensures
            r@ == self@,
    {
        engine_fen(&self.chess)
    }

    /// The legal moves, in the order of the rules engine.
    pub fn legal_moves(&self) -> (r: Vec<ChessMove>)
        ensures
            r@ == legal_moves_at(self@),
            r@.len() <= 256,
            forall|i: int| 0 <= i < r@.len() ==> (#[trigger] r@[i]).wf() && r@[i].spec_from().is_some(),
    {
        let moves = engine_legal_moves(&self.chess);
        let mut out: Vec<ChessMove> = Vec::new();
        let mut i: usize = 0;
        while i < moves.len()
            invariant
                i <= moves@.len(),
                out@.len() == i,
                moves@.len() == legal_moves_at(self@).len(),
                forall|k: int|
                    0 <= k < moves@.len() ==> move_record(#[trigger] moves@[k]) == legal_moves_at(
                        self@,
                    )[k] && move_record(moves@[k]).spec_from().is_some(),
                forall|k: int|
                    0 <= k < i ==> out@[k] == legal_moves_at(self@)[k] && (#[trigger] out@[k]).wf()
                        && out@[k].spec_from().is_some(),
            decreases moves@.len() - i,
        {
            out.push(move_from_engine(&moves[i]));
            i = i + 1;
        }
        assert(out@ =~= legal_moves_at(self@));
        out
    }

    /// Whether White is to move.
    pub fn white_to_move(&self) -> (r: bool)
        ensures
            r == white_to_move_at(self@),
    {
        engine_white_to_move(&self.chess)
    }

    /// Whether a pawn of the side that is not to move attacks `square`.
    /// A number that is no square is attacked by nothing.
    pub fn pawn_guarded(&self, square: u8) -> (r: bool)
        ensures
            r == (square < 64 && pawn_guarded_at(self@, square)),
    {
        if square >= 64 {
            return false;
        }
        // the squares from which a pawn of the other side attacks the square
        let pawn_attack_squares = engine_pawn_attacks(self.white_to_move(), square);
        // all pawn squares on the board
        let pawn_squares = engine_pawns(&self.chess);
        // all squares occupied by the other side
        let opponent_squares = engine_them(&self.chess);
        (pawn_attack_squares & pawn_squares & opponent_squares) != 0
    }

    /// Whether the game is over by checkmate or stalemate: the side to move
    /// has no legal move.
    pub fn is_over(&self) -> (r: bool)
        ensures
            r == (legal_moves_at(self@).len() == 0),
    {
        engine_is_checkmate(&self.chess) || engine_is_stalemate(&self.chess)
    }

    /// The legal move that `san` names in this position.
    pub fn san_to_move(&self, san: &str) -> (r: Option<ChessMove>)
        ensures
            r == san_move_at(self@, san@),
            r matches Some(m) ==> legal_moves_at(self@).contains(m) && m.wf(),
    {
        match engine_san_to_move(&self.chess, san) {
            Some(m) => Some(move_from_engine(&m)),
            None => None,
        }
    }

    /// What a word of a list of moves stands for in this position.
    pub fn token_move(&self, token: &str) -> (r: TokenMove)
        ensures
            r == token_move_at(self@, token@),
            r matches TokenMove::Legal(m) ==> m.wf() && legal_moves_at(self@).contains(m),
    {
        match engine_token_move(&self.chess, token) {
            None => TokenMove::NoMove,
            Some(None) => TokenMove::Illegal,
            Some(Some(m)) => TokenMove::Legal(move_from_engine(&m)),
        }
    }

    /// Plays `m` if it is legal and tells whether it was.
    pub fn play(&mut self, m: &ChessMove) -> (r: bool)
        ensures
            r == legal_moves_at(old(self)@).contains(*m),
            r ==> final(self)@ == fen_after(old(self)@, *m),
            !r ==> final(self)@ == old(self)@,
    {
        let legal = self.legal_moves();
        if contains_move(&legal, m) {
            let m = move_to_engine(m);
            engine_play(&mut self.chess, &m);
            true
        } else {
            false
        }
    }

    /// Plays a legal move and gives its notation.
    pub(crate) fn play_legal(&mut self, m: &ChessMove) -> (r: String)
        requires
            legal_moves_at(old(self)@).contains(*m),
            m.wf(),
        ensures
            r@ == san_at(old(self)@, *m),
            final(self)@ == fen_after(old(self)@, *m),
    {
        let m = move_to_engine(m);
        engine_san_and_play(&mut self.chess, &m)
    }

    /// Plays a legal move.
    pub(crate) fn play_unchecked(&mut self, m: &ChessMove)
        requires
            legal_moves_at(old(self)@).contains(*m),
            m.wf(),
        ensures
            final(self)@ == fen_after(old(self)@, *m),
    {
        let m = move_to_engine(m);
        engine_play(&mut self.chess, &m)
    }
}

} // verus!
