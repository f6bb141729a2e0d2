//! Laws of move generation, stated and proved once over the model.

use vstd::prelude::*;

use crate::board::model::{
    attacked, axis_dest, cap_allows, diag_dest, enemy_after_move, forward_dy, in_bounds_model,
    is_pseudo_dest, king_after_move, lemma_mul_unit, line_dest, line_dest_at, move_is_unsafe,
    move_verdict, ray_hits, ray_occupied, roster_after_move, slide_policy, BoardModel,
};
use crate::board::piece::{InclusionPolicy, MoveError, Piece, PieceColor, PieceKind};
use crate::board::{Board, BoardState, GridPosition};

verus! {

/// A destination of a single scan lies in bounds and is admitted by the
/// scan's policy.
proof fn lemma_line_dest_props(
    bm: BoardModel,
    c: PieceColor,
    s: GridPosition,
    dx: int,
    dy: int,
    cap: Option<u16>,
    pol: InclusionPolicy,
    t: GridPosition,
)
    requires
        line_dest(bm, c, s, dx, dy, cap, pol, t),
        -1 <= dx <= 1,
        -1 <= dy <= 1,
        !(dx == 0 && dy == 0),
    ensures
        in_bounds_model(bm, t),
        bm.occ.contains_key(t) ==> (if bm.occ[t].color == c {
            pol.same
        } else {
            pol.different
        }),
        t != s,
{
    let k = choose|k: int| #[trigger] line_dest_at(bm, c, s, dx, dy, pol, t, k) && cap_allows(cap, k);
    lemma_mul_unit(k, dx);
    lemma_mul_unit(k, dy);
}

/// A destination of the eight-direction slide scan lies in bounds and
/// never holds a same-color piece.
proof fn lemma_slide_props(
    bm: BoardModel,
    c: PieceColor,
    s: GridPosition,
    cap: Option<u16>,
    t: GridPosition,
)
    requires
        axis_dest(bm, c, s, cap, t) || diag_dest(bm, c, s, cap, t),
    ensures
        in_bounds_model(bm, t),
        !(bm.occ.contains_key(t) && bm.occ[t].color == c),
        t != s,
{
    let pol = slide_policy();
    if line_dest(bm, c, s, 1, 0, cap, pol, t) {
        lemma_line_dest_props(bm, c, s, 1, 0, cap, pol, t);
    } else if line_dest(bm, c, s, 0, 1, cap, pol, t) {
        lemma_line_dest_props(bm, c, s, 0, 1, cap, pol, t);
    } else if line_dest(bm, c, s, 0, -1, cap, pol, t) {
        lemma_line_dest_props(bm, c, s, 0, -1, cap, pol, t);
    } else if line_dest(bm, c, s, -1, 0, cap, pol, t) {
        lemma_line_dest_props(bm, c, s, -1, 0, cap, pol, t);
    } else if line_dest(bm, c, s, 1, 1, cap, pol, t) {
        lemma_line_dest_props(bm, c, s, 1, 1, cap, pol, t);
    } else if line_dest(bm, c, s, 1, -1, cap, pol, t) {
        lemma_line_dest_props(bm, c, s, 1, -1, cap, pol, t);
    } else if line_dest(bm, c, s, -1, 1, cap, pol, t) {
        lemma_line_dest_props(bm, c, s, -1, 1, cap, pol, t);
    } else {
        lemma_line_dest_props(bm, c, s, -1, -1, cap, pol, t);
    }
}

/// Every pseudo-legal destination lies in bounds and never holds a piece
/// of the mover's color.
proof fn lemma_pseudo_dest_props(bm: BoardModel, p: Piece, t: GridPosition)
    requires
        is_pseudo_dest(bm, p, t),
    ensures
        in_bounds_model(bm, t),
        !(bm.occ.contains_key(t) && bm.occ[t].color == p.color),
        t != p.position,
{
    let c = p.color;
    let s = p.position;
    match p.kind {
        PieceKind::Pawn => {
            let step = InclusionPolicy { empty: true, same: false, different: false };
            let capture = InclusionPolicy { empty: false, same: false, different: true };
            let fy = forward_dy(c);
            if line_dest(bm, c, s, 0, fy, Some(1u16), step, t) {
                lemma_line_dest_props(bm, c, s, 0, fy, Some(1u16), step, t);
            } else if line_dest(bm, c, s, 1, fy, Some(1u16), capture, t) {
                lemma_line_dest_props(bm, c, s, 1, fy, Some(1u16), capture, t);
            } else {
                lemma_line_dest_props(bm, c, s, -1, fy, Some(1u16), capture, t);
            }
        },
        PieceKind::Knight => {},
        PieceKind::Rook => {
            lemma_slide_props(bm, c, s, None, t);
        },
        PieceKind::Bishop => {
            lemma_slide_props(bm, c, s, None, t);
        },
        PieceKind::Queen => {
            lemma_slide_props(bm, c, s, None, t);
        },
        PieceKind::King => {
            lemma_slide_props(bm, c, s, Some(1u16), t);
        },
    }
}

/// Bounds closure: every pseudo-legal destination of any piece lies inside
/// the board bounds.
pub proof fn lemma_pseudo_dest_in_bounds(bm: BoardModel, p: Piece, t: GridPosition)
    requires
        is_pseudo_dest(bm, p, t),
    ensures
        in_bounds_model(bm, t),
{
    lemma_pseudo_dest_props(bm, p, t);
}

/// No self-capture: a pseudo-legal destination is never occupied by a
/// piece of the mover's own color; non-capturing scans stop before
/// same-color squares rather than including them.
pub proof fn lemma_no_self_capture(bm: BoardModel, p: Piece, t: GridPosition)
    requires
        is_pseudo_dest(bm, p, t),
    ensures
        !(bm.occ.contains_key(t) && bm.occ[t].color == p.color),
{
    lemma_pseudo_dest_props(bm, p, t);
}

/// A piece never has its own square among its pseudo-legal destinations.
pub proof fn lemma_pseudo_dest_not_origin(bm: BoardModel, p: Piece, t: GridPosition)
    requires
        is_pseudo_dest(bm, p, t),
    ensures
        t != p.position,
{
    lemma_pseudo_dest_props(bm, p, t);
}

/// A ray blocked at distance `k` admits no scan destination in any
/// direction at the blocked ray's distance `m > k`: the directions and
/// distances of the two rays must coincide, and then the blocker stands
/// strictly before the destination.
proof fn lemma_line_dest_blocked_ray(
    bm: BoardModel,
    c: PieceColor,
    s: GridPosition,
    dx: int,
    dy: int,
    k: int,
    m: int,
    t: GridPosition,
    dx2: int,
    dy2: int,
    cap: Option<u16>,
    pol: InclusionPolicy,
)
    requires
        -1 <= dx <= 1,
        -1 <= dy <= 1,
        !(dx == 0 && dy == 0),
        -1 <= dx2 <= 1,
        -1 <= dy2 <= 1,
        1 <= k < m,
        ray_occupied(bm, s, dx, dy, k),
        ray_hits(s, dx, dy, m, t),
    ensures
        !line_dest(bm, c, s, dx2, dy2, cap, pol, t),
{
    if line_dest(bm, c, s, dx2, dy2, cap, pol, t) {
        let k2 = choose|k2: int|
            #[trigger] line_dest_at(bm, c, s, dx2, dy2, pol, t, k2) && cap_allows(cap, k2);
        lemma_mul_unit(m, dx);
        lemma_mul_unit(m, dy);
        lemma_mul_unit(k2, dx2);
        lemma_mul_unit(k2, dy2);
        assert(dx2 == dx && dy2 == dy && k2 == m);
        assert(!ray_occupied(bm, s, dx2, dy2, k));
        assert(false);
    }
}

/// Slide-stop: for a rook, bishop or queen, when the square at distance
/// `k` along a direction is occupied, no square at a greater distance
/// along that direction is a pseudo-legal destination.
pub proof fn lemma_slide_stop(
    bm: BoardModel,
    p: Piece,
    dx: int,
    dy: int,
    k: int,
    blocker: GridPosition,
    m: int,
    t: GridPosition,
)
    requires
        p.kind == PieceKind::Rook || p.kind == PieceKind::Bishop || p.kind == PieceKind::Queen,
        -1 <= dx <= 1,
        -1 <= dy <= 1,
        !(dx == 0 && dy == 0),
        1 <= k < m,
        ray_hits(p.position, dx, dy, k, blocker),
        bm.occ.contains_key(blocker),
        ray_hits(p.position, dx, dy, m, t),
    ensures
        !is_pseudo_dest(bm, p, t),
{
    let s = p.position;
    assert(ray_occupied(bm, s, dx, dy, k));
    let pol = slide_policy();
    lemma_line_dest_blocked_ray(bm, p.color, s, dx, dy, k, m, t, 1, 0, None, pol);
    lemma_line_dest_blocked_ray(bm, p.color, s, dx, dy, k, m, t, 0, 1, None, pol);
    lemma_line_dest_blocked_ray(bm, p.color, s, dx, dy, k, m, t, 0, -1, None, pol);
    lemma_line_dest_blocked_ray(bm, p.color, s, dx, dy, k, m, t, -1, 0, None, pol);
    lemma_line_dest_blocked_ray(bm, p.color, s, dx, dy, k, m, t, 1, 1, None, pol);
    lemma_line_dest_blocked_ray(bm, p.color, s, dx, dy, k, m, t, 1, -1, None, pol);
    lemma_line_dest_blocked_ray(bm, p.color, s, dx, dy, k, m, t, -1, 1, None, pol);
    lemma_line_dest_blocked_ray(bm, p.color, s, dx, dy, k, m, t, -1, -1, None, pol);
}

/// Check-safety rejection: a pseudo-legal move whose simulation leaves the
/// mover's king attacked receives the `Unsafe` verdict; the contract of
/// `Players::move_piece` then guarantees the state stays unchanged.
pub proof fn lemma_unsafe_rejected(
    bm: BoardModel,
    black_king: GridPosition,
    white_king: GridPosition,
    from: GridPosition,
    to: GridPosition,
)
    requires
        bm.occ.contains_key(from),
        is_pseudo_dest(bm, bm.occ[from], to),
        move_is_unsafe(
            bm,
            bm.occ[from],
            to,
            match bm.occ[from].color {
                PieceColor::Black => black_king,
                PieceColor::White => white_king,
            },
        ),
    ensures
        move_verdict(bm, black_king, white_king, from, to) == Err::<(), MoveError>(
            MoveError::Unsafe,
        ),
{
}

/// Capture correctness: after an accepted move onto an occupied square,
/// the captured side's roster no longer holds the destination, while the
/// mover's roster holds the moved piece there and no longer holds the
/// origin.
pub proof fn lemma_capture_correctness(
    mover: Map<GridPosition, Piece>,
    enemy: Map<GridPosition, Piece>,
    piece: Piece,
    from: GridPosition,
    to: GridPosition,
)
    requires
        from != to,
    ensures
        !enemy_after_move(enemy, to).contains_key(to),
        roster_after_move(mover, piece, from, to).contains_key(to),
        roster_after_move(mover, piece, from, to)[to] == (Piece { position: to, ..piece }),
        !roster_after_move(mover, piece, from, to).contains_key(from),
{
}

/// King tracking: after an accepted king move the cached king square is
/// exactly the king's new square.
pub proof fn lemma_king_tracking(old_king: GridPosition, piece: Piece, to: GridPosition)
    requires
        piece.kind == PieceKind::King,
    ensures
        king_after_move(old_king, piece, to) == to,
{
}

/// The indicator path and the commit path agree: a destination of the
/// piece on `from` survives the check-safety filter of
/// `Board::legal_destinations` exactly when the verdict of
/// `Board::try_move_piece` accepts the move.
pub proof fn lemma_display_commit_agree(board: Board, from: GridPosition, to: GridPosition)
    requires
        board.players.occ().contains_key(from),
    ensures
        board.legal_dest(board.players.occ()[from], to) <==> move_verdict(
            board.model(),
            board.players.black.king_position,
            board.players.white.king_position,
            from,
            to,
        ) == Ok::<(), MoveError>(()),
{
}

/// Idempotent snapshotting: any two snapshots of the same unmutated board
/// have the same view, hence identical occupancy and identical attack
/// maps per color.
pub proof fn lemma_snapshot_idempotent(board: Board, a: BoardState, b: BoardState)
    requires
        a@ == board.model(),
        b@ == board.model(),
    ensures
        a@.occ == b@.occ,
        forall|c: PieceColor, t: GridPosition| attacked(a@, c, t) == #[trigger] attacked(b@, c, t),
{
}

} // verus!
