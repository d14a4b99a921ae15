//! Moves as an evaluating engine wants them: the two squares of a move and
//! a flag that tells its kind.

use crate::chess::{san_move_at, CastlingSide, ChessMove, Role, Position};
use crate::pgn_data::SanPlusWrapper;
use vstd::prelude::*;

verus! {

/// The kind of a move.
#[derive(Debug, Clone, Copy, PartialEq, Eq, Structural)]
pub enum MoveFlag {
    Promotion { capture: bool, prom: Role },
    Castle { king_side: bool },
    DoublePawnPush,
    Capture { ep_capture: bool },
    QuietMove,
}

/// A move by its squares and its kind.
#[derive(Debug, Clone, Copy, PartialEq, Eq, Structural)]
pub struct PreMoveInfo {
    pub src: u8,
    pub dst: u8,
    pub flags: MoveFlag,
}

/// A pawn goes from the second rank to the fourth or from the seventh to
/// the fifth.
pub open spec fn spec_is_double_pawn_push(m: ChessMove) -> bool {
    m.spec_role() == Role::Pawn && (match m.spec_from() {
        Some(from) => (from / 8 == 1 && m.spec_to() / 8 == 3) || (from / 8 == 6 && m.spec_to() / 8
            == 4),
        None => false,
    })
}

/// Whether a move is the double step of a pawn.
pub fn is_double_pawn_push(mov: &ChessMove) -> (r: bool)
    ensures
        r == spec_is_double_pawn_push(*mov),
{
    match mov.role() {
        Role::Pawn => match mov.from() {
            Some(from) => {
                let to = mov.to();
                (from / 8 == 1 && to / 8 == 3) || (from / 8 == 6 && to / 8 == 4)
            },
            None => false,
        },
        _ => false,
    }
}

/// The kind of a move: a promotion before a castling move, that before a
/// double step of a pawn, that before a capture.
pub open spec fn spec_move_flag(m: ChessMove) -> MoveFlag {
    if m.spec_promotion().is_some() {
        MoveFlag::Promotion { capture: m.spec_capture().is_some(), prom: m.spec_promotion().unwrap() }
    } else if m is Castle {
        MoveFlag::Castle { king_side: m.spec_castling_side() == Some(CastlingSide::KingSide) }
    } else if spec_is_double_pawn_push(m) {
        MoveFlag::DoublePawnPush
    } else if m.spec_capture().is_some() {
        MoveFlag::Capture { ep_capture: m is EnPassant }
    } else {
        MoveFlag::QuietMove
    }
}

/// The kind of a move.
pub fn move_flag(mov: &ChessMove) -> (r: MoveFlag)
    ensures
        r == spec_move_flag(*mov),
{
    match mov.promotion() {
        Some(prom) => MoveFlag::Promotion { capture: mov.is_capture(), prom },
        None => {
            if mov.is_castle() {
                match mov.castling_side() {
                    Some(CastlingSide::KingSide) => MoveFlag::Castle { king_side: true },
                    _ => MoveFlag::Castle { king_side: false },
                }
            } else if is_double_pawn_push(mov) {
                MoveFlag::DoublePawnPush
            } else if mov.is_capture() {
                MoveFlag::Capture { ep_capture: mov.is_en_passant() }
            } else {
                MoveFlag::QuietMove
            }
        },
    }
}

/// The squares and the kind of the move that a move text names in a
/// position; `None` where it names no legal move.
pub fn san_plus_wrapper_to_bit_move(board: &Position, san_plus: &SanPlusWrapper) -> (r: Option<
    PreMoveInfo,
>)
    ensures
        r == (match san_move_at(board@, san_plus@) {
            Some(m) => match m.spec_from() {
                Some(from) => Some(
                    (PreMoveInfo { src: from, dst: m.spec_to(), flags: spec_move_flag(m) }),
                ),
                None => None,
            },
            None => None,
        }),
{
    match board.san_to_move(san_plus.0.as_str()) {
        Some(m) => match m.from() {
            Some(from) => Some(PreMoveInfo { src: from, dst: m.to(), flags: move_flag(&m) }),
            None => None,
        },
        None => None,
    }
}

} // verus!
