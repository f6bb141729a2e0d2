use chetro::board::piece::{Piece, PieceColor, PieceKind};
use chetro::board::player::{Player, Players};
use chetro::board::{Board, BoardState, GridPosition, SquareQueryFlags};

fn pos(x: u16, y: u16) -> GridPosition {
    GridPosition { x, y }
}

fn piece(kind: PieceKind, color: PieceColor, x: u16, y: u16) -> Piece {
    Piece { kind, color, position: pos(x, y) }
}

fn board_with(white_extra: Vec<Piece>, black_extra: Vec<Piece>) -> Board {
    let mut white = Player::new(pos(4, 0), PieceColor::White);
    white.append_pieces(white_extra);
    let mut black = Player::new(pos(4, 7), PieceColor::Black);
    black.append_pieces(black_extra);
    Board::with_state(8, 8, Players::with_sides(black, white))
}

#[test]
fn rook_scan_stops_before_same_color_piece() {
    let board = board_with(
        vec![
            piece(PieceKind::Rook, PieceColor::White, 0, 0),
            piece(PieceKind::Pawn, PieceColor::White, 0, 3),
        ],
        vec![],
    );
    let moves = board.pseudo_legal_destinations(pos(0, 0));
    assert!(moves.contains(&pos(0, 1)));
    assert!(moves.contains(&pos(0, 2)));
    assert!(!moves.contains(&pos(0, 3)), "own pawn's square is excluded");
    assert!(!moves.contains(&pos(0, 4)), "no square behind the blocker");
    assert!(!moves.contains(&pos(0, 0)), "never the origin itself");
}

#[test]
fn rook_scan_includes_capture_and_stops_behind_it() {
    let board = board_with(
        vec![piece(PieceKind::Rook, PieceColor::White, 0, 0)],
        vec![piece(PieceKind::Knight, PieceColor::Black, 3, 0)],
    );
    let moves = board.pseudo_legal_destinations(pos(0, 0));
    assert!(moves.contains(&pos(1, 0)));
    assert!(moves.contains(&pos(2, 0)));
    assert!(moves.contains(&pos(3, 0)), "the capture square is included");
    assert!(!moves.contains(&pos(4, 0)), "nothing behind the capture");
}

#[test]
fn bishop_moves_diagonally_only() {
    let board = board_with(vec![piece(PieceKind::Bishop, PieceColor::White, 2, 2)], vec![]);
    let moves = board.pseudo_legal_destinations(pos(2, 2));
    assert!(moves.contains(&pos(0, 0)));
    assert!(moves.contains(&pos(5, 5)));
    assert!(moves.contains(&pos(0, 4)));
    assert!(!moves.contains(&pos(2, 4)));
    assert!(!moves.contains(&pos(4, 2)));
}

#[test]
fn queen_unites_rook_and_bishop_patterns() {
    let board = board_with(vec![piece(PieceKind::Queen, PieceColor::White, 2, 2)], vec![]);
    let moves = board.pseudo_legal_destinations(pos(2, 2));
    assert!(moves.contains(&pos(2, 6)));
    assert!(moves.contains(&pos(6, 6)));
    assert!(moves.contains(&pos(0, 2)));
    assert!(moves.contains(&pos(0, 0)));
    assert!(!moves.contains(&pos(3, 4)));
}

#[test]
fn king_is_limited_to_one_step() {
    let board = board_with(vec![], vec![]);
    let moves = board.pseudo_legal_destinations(pos(4, 0));
    assert!(moves.contains(&pos(3, 0)));
    assert!(moves.contains(&pos(5, 1)));
    assert!(moves.contains(&pos(4, 1)));
    assert!(!moves.contains(&pos(4, 2)), "two steps is too far");
    assert!(!moves.contains(&pos(6, 0)));
}

#[test]
fn knight_jumps_and_respects_colors_and_edges() {
    let board = board_with(
        vec![
            piece(PieceKind::Knight, PieceColor::White, 0, 0),
            piece(PieceKind::Pawn, PieceColor::White, 1, 2),
        ],
        vec![piece(PieceKind::Pawn, PieceColor::Black, 2, 1)],
    );
    let moves = board.pseudo_legal_destinations(pos(0, 0));
    assert!(!moves.contains(&pos(1, 2)), "own pawn blocks the jump");
    assert!(moves.contains(&pos(2, 1)), "enemy pawn may be captured");
    assert_eq!(moves.len(), 1, "the corner leaves only two offsets on the board");
}

#[test]
fn white_pawn_steps_forward_onto_empty_square_only() {
    let board = board_with(
        vec![piece(PieceKind::Pawn, PieceColor::White, 2, 2)],
        vec![piece(PieceKind::Rook, PieceColor::Black, 2, 3)],
    );
    let moves = board.pseudo_legal_destinations(pos(2, 2));
    assert!(!moves.contains(&pos(2, 3)), "a blocked pawn cannot advance");
    assert!(!moves.contains(&pos(2, 4)), "no two-square opening advance");
    let open = board_with(vec![piece(PieceKind::Pawn, PieceColor::White, 2, 2)], vec![]);
    let open_moves = open.pseudo_legal_destinations(pos(2, 2));
    assert_eq!(open_moves, vec![pos(2, 3)]);
}

#[test]
fn pawn_diagonals_are_capture_only_and_directed_by_color() {
    let board = board_with(
        vec![piece(PieceKind::Pawn, PieceColor::White, 2, 2)],
        vec![
            piece(PieceKind::Rook, PieceColor::Black, 3, 3),
            piece(PieceKind::Pawn, PieceColor::Black, 2, 4),
        ],
    );
    let moves = board.pseudo_legal_destinations(pos(2, 2));
    assert!(moves.contains(&pos(3, 3)), "enemy on the forward diagonal");
    assert!(!moves.contains(&pos(1, 3)), "empty diagonal is not a move");
    assert!(moves.contains(&pos(2, 3)), "forward square is empty");
    // The black pawn moves toward smaller ranks.
    let black_moves = board.pseudo_legal_destinations(pos(2, 4));
    assert!(black_moves.contains(&pos(2, 3)));
    assert!(!black_moves.contains(&pos(2, 5)));
}

#[test]
fn generated_destinations_stay_in_bounds_and_avoid_own_pieces() {
    let board = Board::new();
    let mut squares: Vec<GridPosition> = Vec::new();
    for x in 0..8u16 {
        for y in 0..8u16 {
            squares.push(pos(x, y));
        }
    }
    for sq in &squares {
        if let Some(p) = board.piece_at(*sq) {
            for dest in board.pseudo_legal_destinations(*sq) {
                assert!(dest.x < 8 && dest.y < 8, "destination out of bounds");
                if let Some(occupant) = board.piece_at(dest) {
                    assert!(occupant.color != p.color, "self-capture generated");
                }
            }
        }
    }
}

#[test]
fn black_rook_attack_map_scenario() {
    // 8 by 8 board, the white king at A3 and the black rook at D4 (the
    // black king stands far away at H8).
    let white = Player::new(pos(0, 2), PieceColor::White);
    let mut black = Player::new(pos(7, 7), PieceColor::Black);
    black.append_pieces(vec![piece(PieceKind::Rook, PieceColor::Black, 3, 3)]);
    let board = Board::with_state(8, 8, Players::with_sides(black, white));
    let mut snap = BoardState::new(&board);
    let atks = snap.attack_map(PieceColor::Black);
    assert!(atks.contains(&pos(0, 3)), "A4 lies on the rook's rank");
    assert!(atks.contains(&pos(3, 0)));
    assert!(atks.contains(&pos(3, 6)));
    assert!(!atks.contains(&pos(3, 3)), "the rook's own square is not attacked");
    assert!(!atks.contains(&pos(4, 4)), "off the rook's rank and file");
    assert!(!atks.contains(&pos(0, 2)), "the white king square is off both lines");
}

#[test]
fn attack_map_stops_at_first_blocking_piece() {
    // Along the black rook's file an own pawn blocks at D6: squares behind
    // it are not attacked.
    let white = Player::new(pos(0, 2), PieceColor::White);
    let mut black = Player::new(pos(7, 7), PieceColor::Black);
    black.append_pieces(vec![
        piece(PieceKind::Rook, PieceColor::Black, 3, 3),
        piece(PieceKind::Pawn, PieceColor::Black, 3, 5),
    ]);
    let board = Board::with_state(8, 8, Players::with_sides(black, white));
    let mut snap = BoardState::new(&board);
    let atks = snap.attack_map(PieceColor::Black);
    assert!(atks.contains(&pos(3, 4)));
    assert!(!atks.contains(&pos(3, 5)), "own pawn's square is not a destination");
    assert!(!atks.contains(&pos(3, 6)), "no square beyond the first blocker");
    assert!(!atks.contains(&pos(3, 7)));
}

#[test]
fn snapshots_of_the_same_board_agree() {
    let board = Board::new();
    let mut a = BoardState::new(&board);
    let mut b = BoardState::new(&board);
    for x in 0..8u16 {
        for y in 0..8u16 {
            assert_eq!(a.piece_at(pos(x, y)), b.piece_at(pos(x, y)));
        }
    }
    assert_eq!(a.attack_map(PieceColor::Black), b.attack_map(PieceColor::Black));
    assert_eq!(a.attack_map(PieceColor::White), b.attack_map(PieceColor::White));
}

#[test]
fn attack_map_is_memoized_per_color() {
    let board = Board::new();
    let mut snap = BoardState::new(&board);
    let black_first = snap.attack_map(PieceColor::Black);
    let white_first = snap.attack_map(PieceColor::White);
    // Cached answers for either color are unchanged by the other's query.
    assert_eq!(snap.attack_map(PieceColor::Black), black_first);
    assert_eq!(snap.attack_map(PieceColor::White), white_first);
}

#[test]
fn query_square_checks_bounds_when_asked() {
    let board = Board::new();
    let snap = BoardState::new(&board);
    assert!(snap.query_square(pos(0, 0), SquareQueryFlags { in_bounds: true }));
    assert!(snap.query_square(pos(7, 7), SquareQueryFlags { in_bounds: true }));
    assert!(!snap.query_square(pos(8, 0), SquareQueryFlags { in_bounds: true }));
    assert!(!snap.query_square(pos(0, 8), SquareQueryFlags { in_bounds: true }));
    assert!(!snap.query_square(pos(0, 0), SquareQueryFlags { in_bounds: false }));
}

#[test]
fn snapshot_simulation_does_not_touch_the_live_board() {
    let board = Board::new();
    let mut snap = BoardState::new(&board);
    let captured = snap.move_piece(pos(3, 3), pos(3, 2));
    assert_eq!(
        captured,
        Some(piece(PieceKind::Knight, PieceColor::White, 3, 2)),
        "the snapshot move captures the white knight"
    );
    assert_eq!(snap.piece_at(pos(3, 2)), Some(piece(PieceKind::Rook, PieceColor::Black, 3, 2)));
    assert_eq!(snap.piece_at(pos(3, 3)), None);
    // The live board still holds both pieces where they were.
    assert_eq!(board.piece_at(pos(3, 3)), Some(piece(PieceKind::Rook, PieceColor::Black, 3, 3)));
    assert_eq!(board.piece_at(pos(3, 2)), Some(piece(PieceKind::Knight, PieceColor::White, 3, 2)));
}

#[test]
fn snapshot_move_from_empty_square_changes_nothing() {
    let board = Board::new();
    let mut snap = BoardState::new(&board);
    assert_eq!(snap.move_piece(pos(6, 6), pos(5, 5)), None);
    assert_eq!(snap.piece_at(pos(5, 5)), None);
}

#[test]
fn bounds_are_not_hard_baked_to_eight() {
    let white = Player::new(pos(0, 0), PieceColor::White);
    let mut black = Player::new(pos(11, 11), PieceColor::Black);
    black.append_pieces(vec![piece(PieceKind::Rook, PieceColor::Black, 6, 6)]);
    let board = Board::with_state(12, 12, Players::with_sides(black, white));
    let moves = board.pseudo_legal_destinations(pos(6, 6));
    assert!(moves.contains(&pos(6, 11)), "the file runs to the wider board's edge");
    assert!(moves.contains(&pos(11, 6)));
    assert!(moves.contains(&pos(6, 0)));
    assert!(moves.contains(&pos(0, 6)));
    assert!(!moves.contains(&pos(7, 7)));
    assert!(!moves.contains(&pos(12, 6)), "never past the edge");
}

#[test]
fn tiny_board_limits_the_king() {
    let white = Player::new(pos(0, 0), PieceColor::White);
    let black = Player::new(pos(1, 1), PieceColor::Black);
    let board = Board::with_state(2, 2, Players::with_sides(black, white));
    let moves = board.pseudo_legal_destinations(pos(0, 0));
    assert!(moves.contains(&pos(0, 1)));
    assert!(moves.contains(&pos(1, 0)));
    assert!(moves.contains(&pos(1, 1)), "the enemy square is pseudo-legal");
    assert_eq!(moves.len(), 3);
}

#[test]
fn initial_configuration_matches_the_observed_setup() {
    let board = Board::new();
    assert_eq!(board.piece_at(pos(0, 2)), Some(piece(PieceKind::Rook, PieceColor::White, 0, 2)));
    assert_eq!(board.piece_at(pos(1, 2)), Some(piece(PieceKind::Bishop, PieceColor::White, 1, 2)));
    assert_eq!(board.piece_at(pos(2, 2)), Some(piece(PieceKind::Pawn, PieceColor::White, 2, 2)));
    assert_eq!(board.piece_at(pos(3, 2)), Some(piece(PieceKind::Knight, PieceColor::White, 3, 2)));
    assert_eq!(board.piece_at(pos(4, 2)), Some(piece(PieceKind::King, PieceColor::White, 4, 2)));
    assert_eq!(board.piece_at(pos(5, 2)), Some(piece(PieceKind::Queen, PieceColor::White, 5, 2)));
    assert_eq!(board.piece_at(pos(3, 3)), Some(piece(PieceKind::Rook, PieceColor::Black, 3, 3)));
    assert_eq!(board.piece_at(pos(7, 7)), Some(piece(PieceKind::King, PieceColor::Black, 7, 7)));
    assert_eq!(board.piece_at(pos(0, 0)), None);
    assert_eq!(board.selected_piece_pos(), None);
}
