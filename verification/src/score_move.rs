//! The rank key of a move: a packed integer by which the legal moves of a
//! position are ordered, so that the coder and the decoder number them alike.

use crate::chess::{ChessMove, Role, Position};
use crate::chess::{legal_moves_at, pawn_guarded_at, white_to_move_at};
use vstd::prelude::*;

verus! {

/// The piece-square table of the pawn, from the eighth rank down to the first
/// as White sees the board.
pub const PAWN_TABLE: [i16; 64] = [
    0, 0, 0, 0, 0, 0, 0, 0,
    50, 50, 50, 50, 50, 50, 50, 50,
    10, 10, 20, 30, 30, 20, 10, 10,
    5, 5, 10, 25, 25, 10, 5, 5,
    0, 0, 0, 20, 21, 0, 0, 0,
    5, -5, -10, 0, 0, -10, -5, 5,
    5, 10, 10, -31, -31, 10, 10, 5,
    0, 0, 0, 0, 0, 0, 0, 0,
];

/// The piece-square table of the knight, from the eighth rank down to the first
/// as White sees the board.
pub const KNIGHT_TABLE: [i16; 64] = [
    -50, -40, -30, -30, -30, -30, -40, -50,
    -40, -20, 0, 0, 0, 0, -20, -40,
    -30, 0, 10, 15, 15, 10, 0, -30,
    -30, 5, 15, 20, 20, 15, 5, -30,
    -30, 0, 15, 20, 20, 15, 0, -30,
    -30, 5, 10, 15, 15, 11, 5, -30,
    -40, -20, 0, 5, 5, 0, -20, -40,
    -50, -40, -30, -30, -30, -30, -40, -50,
];

/// The piece-square table of the bishop, from the eighth rank down to the first
/// as White sees the board.
pub const BISHOP_TABLE: [i16; 64] = [
    -20, -10, -10, -10, -10, -10, -10, -20,
    -10, 0, 0, 0, 0, 0, 0, -10,
    -10, 0, 5, 10, 10, 5, 0, -10,
    -10, 5, 5, 10, 10, 5, 5, -10,
    -10, 0, 10, 10, 10, 10, 0, -10,
    -10, 10, 10, 10, 10, 10, 10, -10,
    -10, 5, 0, 0, 0, 0, 5, -10,
    -20, -10, -10, -10, -10, -10, -10, -20,
];

/// The piece-square table of the rook, from the eighth rank down to the first
/// as White sees the board.
pub const ROOK_TABLE: [i16; 64] = [
    0, 0, 0, 0, 0, 0, 0, 0,
    5, 10, 10, 10, 10, 10, 10, 5,
    -5, 0, 0, 0, 0, 0, 0, -5,
    -5, 0, 0, 0, 0, 0, 0, -5,
    -5, 0, 0, 0, 0, 0, 0, -5,
    -5, 0, 0, 0, 0, 0, 0, -5,
    -5, 0, 0, 0, 0, 0, 0, -5,
    0, 0, 0, 5, 5, 0, 0, 0,
];

/// The piece-square table of the queen, from the eighth rank down to the first
/// as White sees the board.
pub const QUEEN_TABLE: [i16; 64] = [
    -20, -10, -10, -5, -5, -10, -10, -20,
    -10, 0, 0, 0, 0, 0, 0, -10,
    -10, 0, 5, 5, 5, 5, 0, -10,
    -5, 0, 5, 5, 5, 5, 0, -5,
    0, 0, 5, 5, 5, 5, 0, -5,
    -10, 5, 5, 5, 5, 5, 0, -10,
    -10, 0, 5, 0, 0, 0, 0, -10,
    -20, -10, -10, -5, -5, -10, -10, -20,
];

/// The piece-square table of the king, from the eighth rank down to the first
/// as White sees the board.
pub const KING_TABLE: [i16; 64] = [
    -30, -40, -40, -50, -50, -40, -40, -30,
    -30, -40, -40, -50, -50, -40, -40, -30,
    -30, -40, -40, -50, -50, -40, -40, -30,
    -30, -40, -40, -50, -50, -40, -40, -30,
    -20, -30, -30, -40, -40, -30, -30, -20,
    -10, -20, -20, -20, -20, -20, -20, -10,
    20, 20, 0, 0, 0, 0, 20, 20,
    0, 30, 10, 0, 0, 10, 30, 0,
];
/// The piece-square table of a role.
pub open spec fn table_of(role: Role) -> [i16; 64] {
    match role {
        Role::Pawn => PAWN_TABLE,
        Role::Knight => KNIGHT_TABLE,
        Role::Bishop => BISHOP_TABLE,
        Role::Rook => ROOK_TABLE,
        Role::Queen => QUEEN_TABLE,
        Role::King => KING_TABLE,
    }
}

/// The square that lies mirrored at the middle between ranks four and five.
pub open spec fn flip_vertical(square: u8) -> int {
    (7 - square / 8) * 8 + square % 8
}

/// The value of a piece on a square: the entry of its table, which is read
/// upside down for White.
pub open spec fn spec_pst_score(role: Role, white: bool, square: u8) -> int
    recommends
        square < 64,
{
    if white {
        table_of(role)[flip_vertical(square)] as int
    } else {
        table_of(role)[square as int] as int
    }
}

/// The value of a piece on a square according to the piece-square tables.
pub fn pst_score(role: Role, white: bool, square: u8) -> (r: i32)
    requires
        square < 64,
    ensures
        r == spec_pst_score(role, white, square),
{
    let sq: usize = if white {
        ((7 - square / 8) * 8 + square % 8) as usize
    } else {
        square as usize
    };
    let v: i16 = match role {
        Role::Pawn => PAWN_TABLE[sq],
        Role::Knight => KNIGHT_TABLE[sq],
        Role::Bishop => BISHOP_TABLE[sq],
        Role::Rook => ROOK_TABLE[sq],
        Role::Queen => QUEEN_TABLE[sq],
        Role::King => KING_TABLE[sq],
    };
    v as i32
}

/// The promotion tier of a move: 0 without a promotion, else the number of
/// the new role less one (1 for a knight up to 4 for a queen).
pub open spec fn spec_promotion_score(m: ChessMove) -> int {
    match m.spec_promotion() {
        Some(role) => role.spec_value() - 1,
        None => 0,
    }
}

/// 1 for a move that captures, else 0.
pub open spec fn spec_capture_score(m: ChessMove) -> int {
    if m.spec_capture().is_some() {
        1
    } else {
        0
    }
}

/// 6 for a move to a square that no pawn of the other side attacks, else 6
/// less the number of the role that moves.
pub open spec fn spec_pawn_defense_score(guarded: bool, m: ChessMove) -> int {
    if guarded {
        6 - m.spec_role().spec_value()
    } else {
        6
    }
}

/// 512 and what the piece gains on the piece-square table of its role by
/// going from its origin to its target.
pub open spec fn spec_move_pst_score(white: bool, m: ChessMove) -> int
    recommends
        m.wf(),
        m.spec_from().is_some(),
{
    512 + spec_pst_score(m.spec_role(), white, m.spec_to()) - spec_pst_score(
        m.spec_role(),
        white,
        m.spec_from().unwrap(),
    )
}

/// The rank key of a move: from the most significant field down, the
/// promotion tier (from bit 28), the capture bit (bit 27), the pawn defense
/// (from bit 24), the piece-square gain (from bit 12), the target square
/// (from bit 6) and the origin square.
pub open spec fn move_key(white: bool, guarded: bool, m: ChessMove) -> int
    recommends
        m.wf(),
        m.spec_from().is_some(),
{
    spec_promotion_score(m) * 0x1000_0000 + spec_capture_score(m) * 0x800_0000
        + spec_pawn_defense_score(guarded, m) * 0x100_0000 + spec_move_pst_score(white, m) * 0x1000
        + m.spec_to() * 0x40 + m.spec_from().unwrap()
}

/// The rank key of a move in the position with the given FEN record.
pub open spec fn move_score_at(fen: Seq<char>, m: ChessMove) -> int {
    move_key(white_to_move_at(fen), pawn_guarded_at(fen, m.spec_to()), m)
}

/// The fields of a rank key, most significant first.
pub open spec fn key_fields(white: bool, guarded: bool, m: ChessMove) -> Seq<int> {
    seq![
        spec_promotion_score(m),
        spec_capture_score(m),
        spec_pawn_defense_score(guarded, m),
        spec_move_pst_score(white, m),
        m.spec_to() as int,
        m.spec_from().unwrap() as int,
    ]
}

/// `a` comes before `b` in the lexicographic order of sequences of equal
/// length: at the first place where they differ, `a` is smaller.
pub open spec fn lex_less(a: Seq<int>, b: Seq<int>) -> bool {
    exists|i: int|
        0 <= i < a.len() && i < b.len() && a[i] < b[i] && a.take(i) == b.take(i)
}

/// The score for a move that promotes a pawn: 0 without a promotion, 1 for
/// a knight, 2 for a bishop, 3 for a rook, 4 for a queen.
pub fn promotion_score(m: &ChessMove) -> (r: i32)
    ensures
        r == spec_promotion_score(*m),
        0 <= r <= 5,
{
    match m.promotion() {
        Some(role) => role.value() - 1,
        None => 0,
    }
}

/// The score for a move that captures a piece: 1 if it does, else 0.
pub fn capture_score(m: &ChessMove) -> (r: i32)
    ensures
        r == spec_capture_score(*m),
{
    if m.is_capture() {
        1
    } else {
        0
    }
}

/// The score for a move whose target a pawn of the other side may attack.
pub fn pawn_defense_score(pos: &Position, m: &ChessMove) -> (r: i32)
    ensures
        r == spec_pawn_defense_score(m.spec_to() < 64 && pawn_guarded_at(pos@, m.spec_to()), *m),
        0 <= r <= 6,
{
    if pos.pawn_guarded(m.to()) {
        6 - m.role().value()
    } else {
        6
    }
}

/// The score for a move according to the piece-square tables, with 512
/// added so that it is positive.
pub fn move_pst_score(white: bool, m: &ChessMove) -> (r: i32)
    requires
        m.wf(),
        m.spec_from().is_some(),
    ensures
        r == spec_move_pst_score(white, *m),
        412 <= r <= 612,
{
    let from = match m.from() {
        Some(from) => from,
        None => 0,
    };
    proof {
        lemma_pst_bounds(m.spec_role(), white, m.spec_to());
        lemma_pst_bounds(m.spec_role(), white, from);
    }
    let to_score = pst_score(m.role(), white, m.to());
    let from_score = pst_score(m.role(), white, from);
    512 + to_score - from_score
}

/// The rank key of a move in a position.
pub fn move_score(pos: &Position, m: &ChessMove) -> (r: i32)
    requires
        m.wf(),
        m.spec_from().is_some(),
    ensures
        r == move_score_at(pos@, *m),
{
    let promotion = promotion_score(m);
    let capture = capture_score(m);
    let pawn_defense = pawn_defense_score(pos, m);
    let move_value = move_pst_score(pos.white_to_move(), m);
    let to_value = m.to() as i32;
    let from_value = match m.from() {
        Some(from) => from as i32,
        None => 0,
    };
    promotion * 0x1000_0000 + capture * 0x800_0000 + pawn_defense * 0x100_0000 + move_value
        * 0x1000 + to_value * 0x40 + from_value
}

/// The entries of the table of the pawn lie between -50 and 50.
proof fn lemma_pawn_table_bounds(i: int)
    requires
        0 <= i < 64,
    ensures
        -50 <= PAWN_TABLE[i] <= 50,
{
}

/// The entries of the table of the knight lie between -50 and 50.
proof fn lemma_knight_table_bounds(i: int)
    requires
        0 <= i < 64,
    ensures
        -50 <= KNIGHT_TABLE[i] <= 50,
{
}

/// The entries of the table of the bishop lie between -50 and 50.
proof fn lemma_bishop_table_bounds(i: int)
    requires
        0 <= i < 64,
    ensures
        -50 <= BISHOP_TABLE[i] <= 50,
{
}

/// The entries of the table of the rook lie between -50 and 50.
proof fn lemma_rook_table_bounds(i: int)
    requires
        0 <= i < 64,
    ensures
        -50 <= ROOK_TABLE[i] <= 50,
{
}

/// The entries of the table of the queen lie between -50 and 50.
proof fn lemma_queen_table_bounds(i: int)
    requires
        0 <= i < 64,
    ensures
        -50 <= QUEEN_TABLE[i] <= 50,
{
}

/// The entries of the table of the king lie between -50 and 50.
proof fn lemma_king_table_bounds(i: int)
    requires
        0 <= i < 64,
    ensures
        -50 <= KING_TABLE[i] <= 50,
{
}

/// Every entry of the piece-square tables lies between -50 and 50.
pub proof fn lemma_pst_bounds(role: Role, white: bool, square: u8)
    requires
        square < 64,
    ensures
        -50 <= spec_pst_score(role, white, square) <= 50,
{
    let i = if white {
        flip_vertical(square)
    } else {
        square as int
    };
    match role {
        Role::Pawn => lemma_pawn_table_bounds(i),
        Role::Knight => lemma_knight_table_bounds(i),
        Role::Bishop => lemma_bishop_table_bounds(i),
        Role::Rook => lemma_rook_table_bounds(i),
        Role::Queen => lemma_queen_table_bounds(i),
        Role::King => lemma_king_table_bounds(i),
    }
}

/// Six fields packed into one integer, the first field most significant.
pub open spec fn pack_fields(f: Seq<int>) -> int
    recommends
        f.len() == 6,
{
    f[0] * 0x1000_0000 + f[1] * 0x800_0000 + f[2] * 0x100_0000 + f[3] * 0x1000 + f[4] * 0x40 + f[5]
}

/// Each field fits the bits that the packing leaves to it.
pub open spec fn fields_fit(f: Seq<int>) -> bool {
    &&& f.len() == 6
    &&& 0 <= f[0] < 8
    &&& 0 <= f[1] < 2
    &&& 0 <= f[2] < 8
    &&& 0 <= f[3] < 4096
    &&& 0 <= f[4] < 64
    &&& 0 <= f[5] < 64
}

/// Sequences that first differ at place `k` are ordered as their elements
/// at `k` are.
proof fn lemma_differ_at(a: Seq<int>, b: Seq<int>, k: int)
    requires
        a.len() == 6,
        b.len() == 6,
        0 <= k < 6,
        a[k] != b[k],
        forall|j: int| 0 <= j < k ==> a[j] == b[j],
    ensures
        lex_less(a, b) <==> a[k] < b[k],
{
    assert(a.take(k) =~= b.take(k));
    assert forall|i: int| k < i < 6 implies a.take(i) != b.take(i) by {
        assert(a.take(i)[k] == a[k]);
        assert(b.take(i)[k] == b[k]);
    }
    assert forall|i: int| 0 <= i < k implies !(a[i] < b[i]) by {}
}

/// Packing keeps the lexicographic order of the fields.
pub proof fn lemma_packing_is_lexicographic(a: Seq<int>, b: Seq<int>)
    requires
        fields_fit(a),
        fields_fit(b),
    ensures
        pack_fields(a) < pack_fields(b) <==> lex_less(a, b),
{
    if a[0] != b[0] {
        lemma_differ_at(a, b, 0);
    } else if a[1] != b[1] {
        lemma_differ_at(a, b, 1);
    } else if a[2] != b[2] {
        lemma_differ_at(a, b, 2);
    } else if a[3] != b[3] {
        lemma_differ_at(a, b, 3);
    } else if a[4] != b[4] {
        lemma_differ_at(a, b, 4);
    } else if a[5] != b[5] {
        lemma_differ_at(a, b, 5);
    } else {
        assert forall|i: int| 0 <= i < 6 implies !(a[i] < b[i]) by {}
    }
}

/// The fields of the rank key of a move fit their bits, and the key is the
/// fields packed.
pub proof fn lemma_key_fields_fit(white: bool, guarded: bool, m: ChessMove)
    requires
        m.wf(),
        m.spec_from().is_some(),
    ensures
        fields_fit(key_fields(white, guarded, m)),
        move_key(white, guarded, m) == pack_fields(key_fields(white, guarded, m)),
{
    lemma_pst_bounds(m.spec_role(), white, m.spec_to());
    lemma_pst_bounds(m.spec_role(), white, m.spec_from().unwrap());
}

/// Fields that fit their bits and pack to one number are the same fields.
pub proof fn lemma_packing_tells_fields_apart(a: Seq<int>, b: Seq<int>)
    requires
        fields_fit(a),
        fields_fit(b),
        pack_fields(a) == pack_fields(b),
    ensures
        a == b,
{
    lemma_packing_is_lexicographic(a, b);
    lemma_packing_is_lexicographic(b, a);
    if a[0] != b[0] {
        lemma_differ_at(a, b, 0);
        lemma_differ_at(b, a, 0);
    } else if a[1] != b[1] {
        lemma_differ_at(a, b, 1);
        lemma_differ_at(b, a, 1);
    } else if a[2] != b[2] {
        lemma_differ_at(a, b, 2);
        lemma_differ_at(b, a, 2);
    } else if a[3] != b[3] {
        lemma_differ_at(a, b, 3);
        lemma_differ_at(b, a, 3);
    } else if a[4] != b[4] {
        lemma_differ_at(a, b, 4);
        lemma_differ_at(b, a, 4);
    } else if a[5] != b[5] {
        lemma_differ_at(a, b, 5);
        lemma_differ_at(b, a, 5);
    }
    assert(a =~= b);
}

/// Moves share a rank key only if all fields of their keys agree: the
/// promotion tier, the capture bit, the pawn defense, the gain on the
/// piece-square tables, the target and the origin.
pub proof fn lemma_equal_keys(
    white: bool,
    guarded_a: bool,
    a: ChessMove,
    guarded_b: bool,
    b: ChessMove,
)
    requires
        a.wf(),
        a.spec_from().is_some(),
        b.wf(),
        b.spec_from().is_some(),
        move_key(white, guarded_a, a) == move_key(white, guarded_b, b),
    ensures
        key_fields(white, guarded_a, a) == key_fields(white, guarded_b, b),
{
    lemma_key_fields_fit(white, guarded_a, a);
    lemma_key_fields_fit(white, guarded_b, b);
    lemma_packing_tells_fields_apart(
        key_fields(white, guarded_a, a),
        key_fields(white, guarded_b, b),
    );
}

/// The rank keys order moves as their fields do, taken in turn from the
/// promotion tier down to the origin square: one key is below another
/// exactly if its fields come first in the lexicographic order.
pub proof fn lemma_key_order_is_lexicographic(
    white: bool,
    guarded_a: bool,
    a: ChessMove,
    guarded_b: bool,
    b: ChessMove,
)
    requires
        a.wf(),
        a.spec_from().is_some(),
        b.wf(),
        b.spec_from().is_some(),
    ensures
        move_key(white, guarded_a, a) < move_key(white, guarded_b, b) <==> lex_less(
            key_fields(white, guarded_a, a),
            key_fields(white, guarded_b, b),
        ),
{
    lemma_key_fields_fit(white, guarded_a, a);
    lemma_key_fields_fit(white, guarded_b, b);
    lemma_packing_is_lexicographic(key_fields(white, guarded_a, a), key_fields(white, guarded_b, b));
}

/// The number of a role that may be missing: 0 for none.
pub open spec fn role_code(role: Option<Role>) -> int {
    match role {
        None => 0,
        Some(kind) => kind.spec_value() as int,
    }
}

/// Six numbers below 256 packed into one, the first most significant.
pub open spec fn pack_six(v: int, r: int, f: int, t: int, c: int, p: int) -> int {
    ((((v * 256 + r) * 256 + f) * 256 + t) * 256 + c) * 256 + p
}

/// A number that tells a move from every other move: the number of its
/// variant and its fields, packed.
pub open spec fn spec_move_code(m: ChessMove) -> int {
    match m {
        ChessMove::Normal { role, from, capture, to, promotion } => pack_six(
            0,
            role_code(Some(role)),
            from as int,
            to as int,
            role_code(capture),
            role_code(promotion),
        ),
        ChessMove::EnPassant { from, to } => pack_six(1, 0, from as int, to as int, 0, 0),
        ChessMove::Castle { king, rook } => pack_six(2, 0, king as int, rook as int, 0, 0),
        ChessMove::Put { role, to } => pack_six(3, role_code(Some(role)), 0, to as int, 0, 0),
    }
}

/// The order of the ranking: a move comes before the moves of a greater
/// rank key, and among moves of one key before those of a greater code.
pub open spec fn ranks_before(fen: Seq<char>, a: ChessMove, b: ChessMove) -> bool {
    move_score_at(fen, a) < move_score_at(fen, b) || (move_score_at(fen, a) == move_score_at(
        fen,
        b,
    ) && spec_move_code(a) <= spec_move_code(b))
}

/// The order of the ranking as a relation on moves.
pub open spec fn ranking(fen: Seq<char>) -> spec_fn(ChessMove, ChessMove) -> bool {
    |a: ChessMove, b: ChessMove| ranks_before(fen, a, b)
}

/// A list of moves with one more move put in at its place in the order of
/// the ranking.
pub open spec fn insert_ranked(fen: Seq<char>, sorted: Seq<ChessMove>, m: ChessMove) -> Seq<
    ChessMove,
>
    decreases sorted.len(),
{
    if sorted.len() == 0 {
        seq![m]
    } else if ranks_before(fen, sorted.last(), m) {
        sorted.push(m)
    } else {
        insert_ranked(fen, sorted.drop_last(), m).push(sorted.last())
    }
}

/// The first `n` of a list of moves in the order of the ranking.
pub open spec fn ranked_prefix(fen: Seq<char>, moves: Seq<ChessMove>, n: int) -> Seq<ChessMove>
    decreases n,
{
    if n <= 0 {
        Seq::empty()
    } else {
        insert_ranked(fen, ranked_prefix(fen, moves, n - 1), moves[n - 1])
    }
}

/// The legal moves of a position in ascending order of their rank keys,
/// moves of one key in ascending order of their codes.
pub open spec fn ranked_moves_at(fen: Seq<char>) -> Seq<ChessMove> {
    ranked_prefix(fen, legal_moves_at(fen), legal_moves_at(fen).len() as int)
}

/// Six numbers below 256 packed into one.
fn pack(v: u64, r: u64, f: u64, t: u64, c: u64, p: u64) -> (code: u64)
    requires
        v < 256,
        r < 256,
        f < 256,
        t < 256,
        c < 256,
        p < 256,
    ensures
        code == pack_six(v as int, r as int, f as int, t as int, c as int, p as int),
{
    ((((v * 256 + r) * 256 + f) * 256 + t) * 256 + c) * 256 + p
}

/// The code of a move.
pub fn move_code(m: &ChessMove) -> (r: u64)
    ensures
        r == spec_move_code(*m),
{
    match *m {
        ChessMove::Normal { role, from, capture, to, promotion } => {
            let captured: u64 = match capture {
                Some(kind) => kind.value() as u64,
                None => 0,
            };
            let promoted: u64 = match promotion {
                Some(kind) => kind.value() as u64,
                None => 0,
            };
            pack(0, role.value() as u64, from as u64, to as u64, captured, promoted)
        },
        ChessMove::EnPassant { from, to } => pack(1, 0, from as u64, to as u64, 0, 0),
        ChessMove::Castle { king, rook } => pack(2, 0, king as u64, rook as u64, 0, 0),
        ChessMove::Put { role, to } => pack(3, role.value() as u64, 0, to as u64, 0, 0),
    }
}

/// A number tells its last digit to the base 256 from the digits before.
proof fn lemma_digits(h1: int, l1: int, h2: int, l2: int)
    requires
        0 <= l1 < 256,
        0 <= l2 < 256,
        h1 * 256 + l1 == h2 * 256 + l2,
    ensures
        h1 == h2,
        l1 == l2,
{
}

/// Packed numbers below 256 can be told apart.
proof fn lemma_pack_six(
    v1: int,
    r1: int,
    f1: int,
    t1: int,
    c1: int,
    p1: int,
    v2: int,
    r2: int,
    f2: int,
    t2: int,
    c2: int,
    p2: int,
)
    requires
        0 <= r1 < 256 && 0 <= f1 < 256 && 0 <= t1 < 256 && 0 <= c1 < 256 && 0 <= p1 < 256,
        0 <= r2 < 256 && 0 <= f2 < 256 && 0 <= t2 < 256 && 0 <= c2 < 256 && 0 <= p2 < 256,
        pack_six(v1, r1, f1, t1, c1, p1) == pack_six(v2, r2, f2, t2, c2, p2),
    ensures
        v1 == v2 && r1 == r2 && f1 == f2 && t1 == t2 && c1 == c2 && p1 == p2,
{
    lemma_digits((((v1 * 256 + r1) * 256 + f1) * 256 + t1) * 256 + c1, p1, (((v2 * 256 + r2) * 256
        + f2) * 256 + t2) * 256 + c2, p2);
    lemma_digits(((v1 * 256 + r1) * 256 + f1) * 256 + t1, c1, ((v2 * 256 + r2) * 256 + f2) * 256
        + t2, c2);
    lemma_digits((v1 * 256 + r1) * 256 + f1, t1, (v2 * 256 + r2) * 256 + f2, t2);
    lemma_digits(v1 * 256 + r1, f1, v2 * 256 + r2, f2);
    lemma_digits(v1, r1, v2, r2);
}

/// The variant and the fields of a move as the six numbers of its code.
spec fn code_digits(m: ChessMove) -> (int, int, int, int, int, int) {
    match m {
        ChessMove::Normal { role, from, capture, to, promotion } => (
            0,
            role_code(Some(role)),
            from as int,
            to as int,
            role_code(capture),
            role_code(promotion),
        ),
        ChessMove::EnPassant { from, to } => (1, 0, from as int, to as int, 0, 0),
        ChessMove::Castle { king, rook } => (2, 0, king as int, rook as int, 0, 0),
        ChessMove::Put { role, to } => (3, role_code(Some(role)), 0, to as int, 0, 0),
    }
}

/// Moves of one code are one move.
pub proof fn lemma_move_code_tells_moves_apart(a: ChessMove, b: ChessMove)
    requires
        spec_move_code(a) == spec_move_code(b),
    ensures
        a == b,
{
    let x = code_digits(a);
    let y = code_digits(b);
    assert(spec_move_code(a) == pack_six(x.0, x.1, x.2, x.3, x.4, x.5));
    assert(spec_move_code(b) == pack_six(y.0, y.1, y.2, y.3, y.4, y.5));
    lemma_pack_six(x.0, x.1, x.2, x.3, x.4, x.5, y.0, y.1, y.2, y.3, y.4, y.5);
}

/// The order of the ranking is a total order.
pub proof fn lemma_ranking_is_total(fen: Seq<char>)
    ensures
        vstd::relations::total_ordering(ranking(fen)),
{
    let r = ranking(fen);
    assert forall|x: ChessMove, y: ChessMove| #[trigger] r(x, y) && #[trigger] r(y, x) implies x
        == y by {
        lemma_move_code_tells_moves_apart(x, y);
    }
    assert(vstd::relations::reflexive(r));
    assert(vstd::relations::antisymmetric(r));
    assert(vstd::relations::transitive(r));
    assert(vstd::relations::strongly_connected(r));
}

/// `i` is the first place at which `m` stands in `moves`.
pub open spec fn is_rank_of(moves: Seq<ChessMove>, m: ChessMove, i: int) -> bool {
    &&& 0 <= i < moves.len()
    &&& moves[i] == m
    &&& forall|j: int| 0 <= j < i ==> moves[j] != m
}

/// The first place at which `m` stands in `moves`, if it stands there.
pub open spec fn rank_of(moves: Seq<ChessMove>, m: ChessMove) -> Option<int> {
    if moves.contains(m) {
        Some(choose|i: int| is_rank_of(moves, m, i))
    } else {
        None
    }
}

/// A move has at most one rank in a list, and it has one if the list holds it.
pub proof fn lemma_rank_of(moves: Seq<ChessMove>, m: ChessMove, i: int)
    requires
        is_rank_of(moves, m, i),
    ensures
        rank_of(moves, m) == Some(i),
{
    assert(moves.contains(m));
    let c = choose|c: int| is_rank_of(moves, m, c);
    if c < i {
        assert(moves[c] != m);
    }
    if i < c {
        assert(moves[i] != m);
    }
}

/// Putting a move in at its place is an insertion behind the last move
/// that comes before it.
proof fn lemma_insert_at(fen: Seq<char>, sorted: Seq<ChessMove>, m: ChessMove, j: int)
    requires
        0 <= j <= sorted.len(),
        j > 0 ==> ranks_before(fen, sorted[j - 1], m),
        forall|t: int| j <= t < sorted.len() ==> !ranks_before(fen, sorted[t], m),
    ensures
        insert_ranked(fen, sorted, m) == sorted.insert(j, m),
    decreases sorted.len() - j,
{
    if sorted.len() == 0 {
        assert(sorted.insert(j, m) =~= seq![m]);
    } else if j == sorted.len() {
        assert(sorted.insert(j, m) =~= sorted.push(m));
    } else {
        let shorter = sorted.drop_last();
        lemma_insert_at(fen, shorter, m, j);
        assert(shorter.insert(j, m).push(sorted.last()) =~= sorted.insert(j, m));
    }
}

/// What `insert_ranked` keeps: the list grows by the one move and stays in
/// the order of the ranking.
pub proof fn lemma_insert_ranked(fen: Seq<char>, sorted: Seq<ChessMove>, m: ChessMove)
    requires
        vstd::relations::sorted_by(sorted, ranking(fen)),
    ensures
        insert_ranked(fen, sorted, m).len() == sorted.len() + 1,
        insert_ranked(fen, sorted, m).to_multiset() == sorted.to_multiset().insert(m),
        vstd::relations::sorted_by(insert_ranked(fen, sorted, m), ranking(fen)),
    decreases sorted.len(),
{
    broadcast use vstd::seq_lib::group_to_multiset_ensures;

    let r = ranking(fen);
    lemma_ranking_is_total(fen);
    if sorted.len() == 0 {
        assert(sorted.to_multiset() =~= vstd::multiset::Multiset::empty());
        assert(seq![m] =~= Seq::<ChessMove>::empty().push(m));
    } else if ranks_before(fen, sorted.last(), m) {
        let out = sorted.push(m);
        assert forall|a: int, b: int| 0 <= a < b < out.len() implies #[trigger] r(out[a], out[b]) by {
            if b == sorted.len() {
                if a < sorted.len() - 1 {
                    assert(r(sorted[a], sorted[sorted.len() - 1]));
                }
                assert(r(sorted.last(), m));
                assert(r(out[a], sorted.last()));
            } else {
                assert(r(sorted[a], sorted[b]));
            }
        }
    } else {
        let shorter = sorted.drop_last();
        assert forall|a: int, b: int| 0 <= a < b < shorter.len() implies #[trigger] r(
            shorter[a],
            shorter[b],
        ) by {
            assert(r(sorted[a], sorted[b]));
        }
        lemma_insert_ranked(fen, shorter, m);
        let inner = insert_ranked(fen, shorter, m);
        assert(sorted =~= shorter.push(sorted.last()));
        assert(inner.to_multiset().insert(sorted.last()) =~= sorted.to_multiset().insert(m));
        let out = inner.push(sorted.last());
        assert(r(m, sorted.last()));
        assert forall|a: int, b: int| 0 <= a < b < out.len() implies #[trigger] r(out[a], out[b]) by {
            if b == sorted.len() {
                // every move of `inner` is `m` or a move of `shorter`
                assert(inner.to_multiset().count(inner[a]) > 0);
                if inner[a] != m {
                    assert(shorter.to_multiset().count(inner[a]) > 0);
                    let k = choose|k: int| 0 <= k < shorter.len() && shorter[k] == inner[a];
                    assert(r(sorted[k], sorted[sorted.len() - 1]));
                }
            } else {
                assert(r(inner[a], inner[b]));
            }
        }
    }
}

/// The ranked list of moves holds each move as often as the list it was
/// made from, in the order of the ranking.
pub proof fn lemma_ranked_prefix(fen: Seq<char>, moves: Seq<ChessMove>, n: int)
    requires
        0 <= n <= moves.len(),
    ensures
        ranked_prefix(fen, moves, n).len() == n,
        ranked_prefix(fen, moves, n).to_multiset() == moves.take(n).to_multiset(),
        vstd::relations::sorted_by(ranked_prefix(fen, moves, n), ranking(fen)),
    decreases n,
{
    broadcast use vstd::seq_lib::group_to_multiset_ensures;

    if n == 0 {
        assert(moves.take(0) =~= Seq::<ChessMove>::empty());
    } else {
        lemma_ranked_prefix(fen, moves, n - 1);
        lemma_insert_ranked(fen, ranked_prefix(fen, moves, n - 1), moves[n - 1]);
        assert(moves.take(n) =~= moves.take(n - 1).push(moves[n - 1]));
    }
}

/// The ranking does not depend on the order in which the moves are handed
/// in: lists that hold the same moves, each as often, are ranked alike.
pub proof fn lemma_ranking_ignores_order(fen: Seq<char>, a: Seq<ChessMove>, b: Seq<ChessMove>)
    requires
        a.to_multiset() == b.to_multiset(),
    ensures
        ranked_prefix(fen, a, a.len() as int) == ranked_prefix(fen, b, b.len() as int),
{
    lemma_ranked_prefix(fen, a, a.len() as int);
    lemma_ranked_prefix(fen, b, b.len() as int);
    assert(a.take(a.len() as int) =~= a);
    assert(b.take(b.len() as int) =~= b);
    lemma_ranking_is_total(fen);
    vstd::seq_lib::lemma_sorted_unique(
        ranked_prefix(fen, a, a.len() as int),
        ranked_prefix(fen, b, b.len() as int),
        ranking(fen),
    );
}

/// The ranking of the legal moves is a function of the position alone: it
/// holds each legal move as often as the rules engine gives it, in ascending
/// order of the rank keys, so two calls on one position number the moves alike.
pub proof fn lemma_ranked_moves(fen: Seq<char>)
    ensures
        ranked_moves_at(fen).len() == legal_moves_at(fen).len(),
        ranked_moves_at(fen).to_multiset() == legal_moves_at(fen).to_multiset(),
        forall|m: ChessMove| ranked_moves_at(fen).contains(m) <==> legal_moves_at(fen).contains(m),
        forall|a: int, b: int|
            0 <= a <= b < ranked_moves_at(fen).len() ==> move_score_at(fen, ranked_moves_at(fen)[a])
                <= move_score_at(fen, ranked_moves_at(fen)[b]),
{
    broadcast use vstd::seq_lib::group_to_multiset_ensures;

    let legal = legal_moves_at(fen);
    let ranked = ranked_moves_at(fen);
    let r = ranking(fen);
    lemma_ranked_prefix(fen, legal, legal.len() as int);
    assert(legal.take(legal.len() as int) =~= legal);
    assert forall|m: ChessMove| ranked.contains(m) <==> legal.contains(m) by {
        assert(ranked.to_multiset().count(m) == legal.to_multiset().count(m));
    }
    assert forall|a: int, b: int| 0 <= a <= b < ranked.len() implies move_score_at(fen, ranked[a])
        <= move_score_at(fen, ranked[b]) by {
        if a < b {
            assert(r(ranked[a], ranked[b]));
        }
    }
}

/// The legal moves of a position, ordered by their rank keys.
pub fn generate_moves(pos: &Position) -> (r: Vec<ChessMove>)
    ensures
        r@ == ranked_moves_at(pos@),
        r@.len() <= 256,
        forall|i: int| 0 <= i < r@.len() ==> (#[trigger] r@[i]).wf(),
        forall|i: int| 0 <= i < r@.len() ==> legal_moves_at(pos@).contains(#[trigger] r@[i]),
{
    let legal = pos.legal_moves();
    let mut sorted: Vec<ChessMove> = Vec::new();
    let mut keys: Vec<i32> = Vec::new();
    let mut codes: Vec<u64> = Vec::new();
    let mut i: usize = 0;
    while i < legal.len()
        invariant
            i <= legal@.len(),
            legal@ == legal_moves_at(pos@),
            legal@.len() <= 256,
            forall|t: int|
                0 <= t < legal@.len() ==> (#[trigger] legal@[t]).wf() && legal@[t].spec_from().is_some(),
            sorted@ == ranked_prefix(pos@, legal@, i as int),
            sorted@.len() == i,
            keys@.len() == i,
            codes@.len() == i,
            forall|t: int| 0 <= t < i ==> keys@[t] == move_score_at(pos@, #[trigger] sorted@[t]),
            forall|t: int| 0 <= t < i ==> codes@[t] == spec_move_code(#[trigger] sorted@[t]),
            forall|t: int| 0 <= t < i ==> (#[trigger] sorted@[t]).wf(),
            forall|t: int| 0 <= t < i ==> legal@.contains(#[trigger] sorted@[t]),
        decreases legal@.len() - i,
    {
        let m = legal[i];
        let key = move_score(pos, &m);
        let code = move_code(&m);
        let mut j: usize = sorted.len();
        while j > 0 && (keys[j - 1] > key || (keys[j - 1] == key && codes[j - 1] > code))
            invariant
                j <= sorted@.len(),
                sorted@.len() == keys@.len(),
                sorted@.len() == codes@.len(),
                forall|t: int|
                    j <= t < keys@.len() ==> keys@[t] > key || (keys@[t] == key && codes@[t]
                        > code),
            decreases j,
        {
            j = j - 1;
        }
        proof {
            assert(legal@.contains(m));
            lemma_insert_at(pos@, sorted@, m, j as int);
            let after = sorted@.insert(j as int, m);
            assert forall|t: int| 0 <= t < i + 1 implies (#[trigger] after[t]).wf()
                && legal@.contains(after[t]) && keys@.insert(j as int, key)[t] == move_score_at(
                pos@,
                after[t],
            ) && codes@.insert(j as int, code)[t] == spec_move_code(after[t]) by {
                if t < j {
                    assert(after[t] == sorted@[t]);
                } else if t > j {
                    assert(after[t] == sorted@[t - 1]);
                }
            }
        }
        sorted.insert(j, m);
        keys.insert(j, key);
        codes.insert(j, code);
        i = i + 1;
    }
    sorted
}

/// The rank of a move among the legal moves of a position: the place at
/// which `generate_moves` lists it first, or `None` if it is not legal.
pub fn get_move_index(pos: &Position, m: &ChessMove) -> (r: Option<usize>)
    ensures
        r.is_some() == legal_moves_at(pos@).contains(*m),
        r.is_some() ==> m.wf(),
        match r {
            Some(i) => rank_of(ranked_moves_at(pos@), *m) == Some(i as int) && i < 256,
            None => rank_of(ranked_moves_at(pos@), *m) == None::<int>,
        },
{
    let moves = generate_moves(pos);
    proof {
        lemma_ranked_moves(pos@);
    }
    let mut i: usize = 0;
    while i < moves.len()
        invariant
            i <= moves@.len(),
            moves@ == ranked_moves_at(pos@),
            moves@.len() <= 256,
            forall|j: int| 0 <= j < moves@.len() ==> (#[trigger] moves@[j]).wf(),
            moves@.contains(*m) <==> legal_moves_at(pos@).contains(*m),
            forall|j: int| 0 <= j < i ==> moves@[j] != *m,
        decreases moves@.len() - i,
    {
        if moves[i].same(m) {
            proof {
                lemma_rank_of(moves@, *m, i as int);
                assert(moves@.contains(*m));
            }
            return Some(i);
        }
        i = i + 1;
    }
    None
}

/// The move of a given rank is found again at that rank, unless the list
/// holds it at an earlier place too: the ranks that the coder writes are the
/// ranks at which the decoder looks the moves up.
pub proof fn lemma_rank_round_trip(moves: Seq<ChessMove>, m: ChessMove)
    requires
        moves.contains(m),
    ensures
        rank_of(moves, m) matches Some(i) && 0 <= i < moves.len() && moves[i] == m,
{
    lemma_has_rank(moves, m, moves.len() as int);
}

/// A move that stands among the first `n` of a list has a rank below `n`.
proof fn lemma_has_rank(moves: Seq<ChessMove>, m: ChessMove, n: int)
    requires
        0 <= n <= moves.len(),
        exists|i: int| 0 <= i < n && moves[i] == m,
    ensures
        exists|i: int| i < n && is_rank_of(moves, m, i),
    decreases n,
{
    if exists|i: int| 0 <= i < n - 1 && moves[i] == m {
        lemma_has_rank(moves, m, n - 1);
        let i = choose|i: int| i < n - 1 && is_rank_of(moves, m, i);
        assert(i < n && is_rank_of(moves, m, i));
    } else {
        assert(is_rank_of(moves, m, n - 1));
    }
}

} // verus!
