use chetro::board::piece::{MoveError, Piece, PieceColor, PieceKind};
use chetro::board::player::{Player, Players};
use chetro::board::{Board, BoardState, GridPosition};

fn pos(x: u16, y: u16) -> GridPosition {
    GridPosition { x, y }
}

fn piece(kind: PieceKind, color: PieceColor, x: u16, y: u16) -> Piece {
    Piece { kind, color, position: pos(x, y) }
}

/// A board with the white king at `A1`, a white rook at `A2` shielding it
/// from a black rook at `A6`, and the black king far away at `H8`.
fn pinned_rook_board() -> Board {
    let mut white = Player::new(pos(0, 0), PieceColor::White);
    white.append_pieces(vec![piece(PieceKind::Rook, PieceColor::White, 0, 1)]);
    let mut black = Player::new(pos(7, 7), PieceColor::Black);
    black.append_pieces(vec![piece(PieceKind::Rook, PieceColor::Black, 0, 5)]);
    Board::with_state(8, 8, Players::with_sides(black, white))
}

#[test]
fn invalid_origin_is_reported() {
    let mut board = Board::new();
    let r = board.try_move_piece(pos(6, 6), pos(6, 7));
    assert_eq!(r, Err(MoveError::InvalidOrigin));
}

#[test]
fn off_pattern_move_is_illegal() {
    let mut board = pinned_rook_board();
    // A rook cannot move diagonally.
    let r = board.try_move_piece(pos(0, 1), pos(1, 2));
    assert_eq!(r, Err(MoveError::Illegal));
    assert_eq!(board.piece_at(pos(0, 1)), Some(piece(PieceKind::Rook, PieceColor::White, 0, 1)));
}

#[test]
fn unpinning_move_is_rejected_and_board_unchanged() {
    let mut board = pinned_rook_board();
    // Moving the shielding rook sideways exposes the white king on file A.
    let r = board.try_move_piece(pos(0, 1), pos(3, 1));
    assert_eq!(r, Err(MoveError::Unsafe));
    assert_eq!(board.piece_at(pos(0, 1)), Some(piece(PieceKind::Rook, PieceColor::White, 0, 1)));
    assert_eq!(board.piece_at(pos(3, 1)), None);
    assert_eq!(board.piece_at(pos(0, 5)), Some(piece(PieceKind::Rook, PieceColor::Black, 0, 5)));
}

#[test]
fn unsafe_capture_leaves_captured_piece_in_place() {
    // White king at A1 is shielded by the rook at A2; a black pawn at B2
    // cannot be taken by that rook, because the black rook would then give
    // check along file A.
    let mut white = Player::new(pos(0, 0), PieceColor::White);
    white.append_pieces(vec![piece(PieceKind::Rook, PieceColor::White, 0, 1)]);
    let mut black = Player::new(pos(7, 7), PieceColor::Black);
    black.append_pieces(vec![
        piece(PieceKind::Rook, PieceColor::Black, 0, 5),
        piece(PieceKind::Pawn, PieceColor::Black, 1, 1),
    ]);
    let mut board = Board::with_state(8, 8, Players::with_sides(black, white));
    let r = board.try_move_piece(pos(0, 1), pos(1, 1));
    assert_eq!(r, Err(MoveError::Unsafe));
    assert_eq!(board.piece_at(pos(1, 1)), Some(piece(PieceKind::Pawn, PieceColor::Black, 1, 1)));
    assert_eq!(board.piece_at(pos(0, 1)), Some(piece(PieceKind::Rook, PieceColor::White, 0, 1)));
}

#[test]
fn capture_removes_piece_from_both_rosters() {
    let mut board = pinned_rook_board();
    // The shielding rook may capture the black rook along the file.
    let r = board.try_move_piece(pos(0, 1), pos(0, 5));
    assert_eq!(r, Ok(()));
    assert_eq!(board.piece_at(pos(0, 5)), Some(piece(PieceKind::Rook, PieceColor::White, 0, 5)));
    assert_eq!(board.piece_at(pos(0, 1)), None);
}

#[test]
fn accepted_king_move_updates_cached_king_square() {
    let white = Player::new(pos(0, 0), PieceColor::White);
    let black = Player::new(pos(7, 7), PieceColor::Black);
    let mut board = Board::with_state(8, 8, Players::with_sides(black, white));
    assert_eq!(board.players.king_position(PieceColor::White), pos(0, 0));
    let r = board.try_move_piece(pos(0, 0), pos(1, 1));
    assert_eq!(r, Ok(()));
    assert_eq!(board.players.king_position(PieceColor::White), pos(1, 1));
    assert_eq!(board.piece_at(pos(1, 1)), Some(piece(PieceKind::King, PieceColor::White, 1, 1)));
    // The updated square feeds later attack maps: the relocated king now
    // covers B2's neighbors.
    let mut snap = BoardState::new(&board);
    let atks = snap.attack_map(PieceColor::White);
    assert!(atks.contains(&pos(2, 2)));
    assert!(atks.contains(&pos(0, 0)));
    assert!(!atks.contains(&pos(3, 3)));
}

#[test]
fn non_king_move_keeps_cached_king_square() {
    let mut board = pinned_rook_board();
    let r = board.try_move_piece(pos(0, 1), pos(0, 3));
    assert_eq!(r, Ok(()));
    assert_eq!(board.players.king_position(PieceColor::White), pos(0, 0));
}

#[test]
fn king_cannot_step_onto_attacked_square() {
    // The black rook on A6 sweeps file A; the white king on B1 cannot step
    // to A1, but may step away to C1.
    let white = Player::new(pos(1, 0), PieceColor::White);
    let mut black = Player::new(pos(7, 7), PieceColor::Black);
    black.append_pieces(vec![piece(PieceKind::Rook, PieceColor::Black, 0, 5)]);
    let mut board = Board::with_state(8, 8, Players::with_sides(black, white));
    let r = board.try_move_piece(pos(1, 0), pos(0, 0));
    assert_eq!(r, Err(MoveError::Unsafe));
    let r2 = board.try_move_piece(pos(1, 0), pos(2, 0));
    assert_eq!(r2, Ok(()));
}

#[test]
fn selection_is_cleared_when_its_square_moves() {
    let mut board = pinned_rook_board();
    board.select_piece_at(pos(0, 1));
    assert_eq!(board.selected_piece_pos(), Some(pos(0, 1)));
    let r = board.try_move_piece(pos(0, 1), pos(0, 3));
    assert_eq!(r, Ok(()));
    assert_eq!(board.selected_piece_pos(), None);
}

#[test]
fn selection_is_kept_when_another_square_moves() {
    let mut board = pinned_rook_board();
    board.select_piece_at(pos(7, 7));
    let r = board.try_move_piece(pos(0, 1), pos(0, 3));
    assert_eq!(r, Ok(()));
    assert_eq!(board.selected_piece_pos(), Some(pos(7, 7)));
}

#[test]
fn rejected_move_keeps_selection_of_other_square() {
    let mut board = pinned_rook_board();
    board.select_piece_at(pos(0, 1));
    // The selection names the origin, so even a rejected attempt clears it.
    let r = board.try_move_piece(pos(0, 1), pos(3, 1));
    assert_eq!(r, Err(MoveError::Unsafe));
    assert_eq!(board.selected_piece_pos(), None);
}

#[test]
fn selected_piece_returns_the_occupant() {
    let mut board = pinned_rook_board();
    assert_eq!(board.selected_piece(), None);
    board.select_piece_at(pos(0, 0));
    assert_eq!(board.selected_piece(), Some(piece(PieceKind::King, PieceColor::White, 0, 0)));
}

#[test]
fn legal_destinations_agree_with_move_verdicts() {
    let board = pinned_rook_board();
    // The pinned rook may only move along file A (including the capture).
    let legal = board.legal_destinations(pos(0, 1));
    for y in 2..=5u16 {
        assert!(legal.contains(&pos(0, y)), "A{} should be legal", y + 1);
    }
    assert!(!legal.contains(&pos(1, 1)));
    assert!(!legal.contains(&pos(3, 1)));
    assert_eq!(legal.len(), 4);
    // And each legal square is accepted by the commit path.
    for to in legal {
        let mut fresh = pinned_rook_board();
        assert_eq!(fresh.try_move_piece(pos(0, 1), to), Ok(()));
    }
}

#[test]
fn removing_a_piece_updates_both_rosters_view() {
    let mut board = pinned_rook_board();
    let removed = board.players.remove_piece_at(pos(0, 5));
    assert_eq!(removed, Some(piece(PieceKind::Rook, PieceColor::Black, 0, 5)));
    assert_eq!(board.players.piece_at(pos(0, 5)), None);
    assert_eq!(board.players.remove_piece_at(pos(0, 5)), None);
}
