use cgn::chess::{ChessMove, Role, Position};
use cgn::eval::{
    is_double_pawn_push, move_flag, san_plus_wrapper_to_bit_move, MoveFlag, PreMoveInfo,
};
use cgn::pgn_data::SanPlusWrapper;

fn normal(role: Role, from: u8, to: u8) -> ChessMove {
    ChessMove::Normal { role, from, capture: None, to, promotion: None }
}

#[test]
fn double_pawn_pushes() {
    assert!(is_double_pawn_push(&normal(Role::Pawn, 12, 28)));
    assert!(is_double_pawn_push(&normal(Role::Pawn, 52, 36)));
    assert!(!is_double_pawn_push(&normal(Role::Pawn, 12, 20)));
    assert!(!is_double_pawn_push(&normal(Role::Pawn, 20, 28)));
    assert!(!is_double_pawn_push(&normal(Role::Rook, 8, 24)));
    assert!(!is_double_pawn_push(&normal(Role::Pawn, 28, 12)));
    assert!(!is_double_pawn_push(&ChessMove::Put { role: Role::Pawn, to: 24 }));
    assert!(!is_double_pawn_push(&ChessMove::EnPassant { from: 36, to: 45 }));
}

#[test]
fn flags_of_moves() {
    assert_eq!(move_flag(&normal(Role::Knight, 6, 21)), MoveFlag::QuietMove);
    assert_eq!(move_flag(&normal(Role::Pawn, 12, 28)), MoveFlag::DoublePawnPush);
    assert_eq!(
        move_flag(&ChessMove::Normal {
            role: Role::Pawn,
            from: 12,
            capture: Some(Role::Pawn),
            to: 28,
            promotion: None
        }),
        MoveFlag::DoublePawnPush
    );
    assert_eq!(
        move_flag(&ChessMove::Normal {
            role: Role::Queen,
            from: 3,
            capture: Some(Role::Pawn),
            to: 51,
            promotion: None
        }),
        MoveFlag::Capture { ep_capture: false }
    );
    assert_eq!(
        move_flag(&ChessMove::EnPassant { from: 36, to: 45 }),
        MoveFlag::Capture { ep_capture: true }
    );
    assert_eq!(
        move_flag(&ChessMove::Castle { king: 4, rook: 7 }),
        MoveFlag::Castle { king_side: true }
    );
    assert_eq!(
        move_flag(&ChessMove::Castle { king: 60, rook: 56 }),
        MoveFlag::Castle { king_side: false }
    );
    assert_eq!(
        move_flag(&ChessMove::Normal {
            role: Role::Pawn,
            from: 54,
            capture: Some(Role::Rook),
            to: 63,
            promotion: Some(Role::Knight)
        }),
        MoveFlag::Promotion { capture: true, prom: Role::Knight }
    );
    assert_eq!(
        move_flag(&ChessMove::Normal {
            role: Role::Pawn,
            from: 54,
            capture: None,
            to: 62,
            promotion: Some(Role::Queen)
        }),
        MoveFlag::Promotion { capture: false, prom: Role::Queen }
    );
}

#[test]
fn move_of_a_text() {
    let pos = Position::new();
    assert_eq!(
        san_plus_wrapper_to_bit_move(&pos, &SanPlusWrapper("e4".to_string())),
        Some(PreMoveInfo { src: 12, dst: 28, flags: MoveFlag::DoublePawnPush })
    );
    assert_eq!(
        san_plus_wrapper_to_bit_move(&pos, &SanPlusWrapper("Nc3".to_string())),
        Some(PreMoveInfo { src: 1, dst: 18, flags: MoveFlag::QuietMove })
    );
    assert_eq!(san_plus_wrapper_to_bit_move(&pos, &SanPlusWrapper("Nc4".to_string())), None);
}
