//! Pieces: kind, color and position, and pseudo-legal move generation.

use vstd::prelude::*;

use crate::board::model::{
    axis_dest, diag_dest, in_bounds_model, is_pseudo_dest, knight_jump, lemma_mul_unit,
    lemma_scan_stopped_blocked, lemma_scan_stopped_cap, lemma_scan_stopped_out, line_dest,
    line_dest_at, line_dest_upto, ray_occupied,
};
use crate::board::{BoardState, GridPosition};

verus! {

broadcast use vstd::seq_lib::lemma_seq_contains_after_push;

/// The side a piece belongs to.
#[derive(Clone, Copy, Debug, PartialEq, Eq, Structural)]
pub enum PieceColor {
    Black,
    White,
}

impl PieceColor {
    /// The other side.
    pub fn other(&self) -> (r: PieceColor)
        ensures
            r == crate::board::model::opposite(*self),
    {
        match self {
            PieceColor::Black => PieceColor::White,
            PieceColor::White => PieceColor::Black,
        }
    }
}

/// The movement pattern a piece follows.
#[derive(Clone, Copy, Debug, PartialEq, Eq, Structural)]
pub enum PieceKind {
    Pawn,
    Rook,
    Bishop,
    Knight,
    Queen,
    King,
}

/// A piece is a plain value: kind, color, and current square.  Pieces carry
/// no history, so pawns are always single-square movers and kings have no
/// castling right.
#[derive(Clone, Copy, Debug, PartialEq, Eq, Structural)]
pub struct Piece {
    pub kind: PieceKind,
    pub color: PieceColor,
    pub position: crate::board::GridPosition,
}

/// Why a requested move was rejected.  All variants are recoverable and are
/// reported as ordinary result values; a rejected move leaves the board
/// unchanged.
#[derive(Clone, Copy, Debug, PartialEq, Eq, Structural)]
pub enum MoveError {
    /// No piece occupies the origin square.
    InvalidOrigin,
    /// The destination is pseudo-legal but the move would leave the moving
    /// side's king attacked.
    Unsafe,
    /// The destination is outside the piece's pseudo-legal set.
    Illegal,
}

/// Which squares a straight-line scan may include: empty squares, squares
/// occupied by a same-color piece, squares occupied by an opposite-color
/// piece.  Occupied squares end the scan whether or not they are included.
#[derive(Clone, Copy, Debug, PartialEq, Eq, Structural)]
pub struct InclusionPolicy {
    pub empty: bool,
    pub same: bool,
    pub different: bool,
}

/// Walks outward from `start` in direction `(dx, dy)` at distances 1, 2,
/// 3, ... up to the cap, appending each included square to `result`.  The
/// scan stops at the board edge and on the first occupied square, which is
/// included only as the policy admits it; no square behind an occupier is
/// ever reached.
fn scan_line(
    board: &BoardState,
    color: PieceColor,
    start: GridPosition,
    dx: i32,
    dy: i32,
    cap: Option<u16>,
    pol: InclusionPolicy,
    result: &mut Vec<GridPosition>,
)
    requires
        board.wf(),
        -1 <= dx <= 1,
        -1 <= dy <= 1,
        !(dx == 0 && dy == 0),
        in_bounds_model(board@, start),
    ensures
        forall|t: GridPosition|
            #[trigger] final(result)@.contains(t) <==> old(result)@.contains(t) || line_dest(
                board@,
                color,
                start,
                dx as int,
                dy as int,
                cap,
                pol,
                t,
            ),
{
    let ghost bm = board@;
    let ghost init = result@;
    let mut k: u32 = 0;
    let mut cur = start;
    proof {
        lemma_mul_unit(0, dx as int);
        lemma_mul_unit(0, dy as int);
    }
    loop
        invariant_except_break
            board.wf(),
            bm == board@,
            -1 <= dx <= 1,
            -1 <= dy <= 1,
            !(dx == 0 && dy == 0),
            in_bounds_model(bm, start),
            cur.x == start.x + (k as int) * (dx as int),
            cur.y == start.y + (k as int) * (dy as int),
            in_bounds_model(bm, cur),
            k <= bm.width + bm.height,
            cap matches Some(m) ==> k <= m,
            forall|j: int|
                1 <= j <= k ==> !#[trigger] ray_occupied(bm, start, dx as int, dy as int, j),
            forall|t: GridPosition|
                #[trigger] result@.contains(t) <==> init.contains(t) || line_dest_upto(
                    bm,
                    color,
                    start,
                    dx as int,
                    dy as int,
                    k as int,
                    pol,
                    t,
                ),
        ensures
            forall|t: GridPosition|
                #[trigger] result@.contains(t) <==> init.contains(t) || line_dest(
                    bm,
                    color,
                    start,
                    dx as int,
                    dy as int,
                    cap,
                    pol,
                    t,
                ),
        decreases bm.width + bm.height - k,
    {
        proof {
            lemma_mul_unit(k as int, dx as int);
            lemma_mul_unit(k as int, dy as int);
            lemma_mul_unit(k as int + 1, dx as int);
            lemma_mul_unit(k as int + 1, dy as int);
        }
        match cap {
            Some(m) => {
                if k >= m as u32 {
                    proof {
                        lemma_scan_stopped_cap(
                            bm,
                            color,
                            start,
                            dx as int,
                            dy as int,
                            m,
                            pol,
                            k as int,
                        );
                    }
                    break;
                }
            },
            None => {},
        }
        let next = match cur.try_add(dx, dy) {
            None => {
                proof {
                    lemma_scan_stopped_out(
                        bm,
                        color,
                        start,
                        dx as int,
                        dy as int,
                        cap,
                        pol,
                        k as int,
                        cur.x as int,
                        cur.y as int,
                    );
                }
                break;
            },
            Some(n) => n,
        };
        if !board.in_bounds(next) {
            proof {
                lemma_scan_stopped_out(
                    bm,
                    color,
                    start,
                    dx as int,
                    dy as int,
                    cap,
                    pol,
                    k as int,
                    cur.x as int,
                    cur.y as int,
                );
            }
            break;
        }
        k = k + 1;
        cur = next;
        match board.piece_at(cur) {
            Some(p) => {
                proof {
                    assert(ray_occupied(bm, start, dx as int, dy as int, k as int));
                }
                let included = if p.color == color {
                    pol.same
                } else {
                    pol.different
                };
                if included {
                    result.push(cur);
                    proof {
                        assert(line_dest_at(
                            bm,
                            color,
                            start,
                            dx as int,
                            dy as int,
                            pol,
                            cur,
                            k as int,
                        ));
                    }
                }
                proof {
                    assert forall|t: GridPosition| #[trigger]
                        result@.contains(t) <==> init.contains(t) || line_dest_upto(
                            bm,
                            color,
                            start,
                            dx as int,
                            dy as int,
                            k as int,
                            pol,
                            t,
                        ) by {
                        if line_dest_upto(bm, color, start, dx as int, dy as int, k as int, pol, t) {
                            let k2 = choose|k2: int|
                                #[trigger] line_dest_at(
                                    bm,
                                    color,
                                    start,
                                    dx as int,
                                    dy as int,
                                    pol,
                                    t,
                                    k2,
                                ) && k2 <= k;
                            if k2 == k {
                                assert(t == cur);
                            }
                        }
                    }
                    lemma_scan_stopped_blocked(
                        bm,
                        color,
                        start,
                        dx as int,
                        dy as int,
                        cap,
                        pol,
                        k as int,
                    );
                }
                break;
            },
            None => {
                proof {
                    assert(!ray_occupied(bm, start, dx as int, dy as int, k as int));
                }
                if pol.empty {
                    result.push(cur);
                    proof {
                        assert(line_dest_at(
                            bm,
                            color,
                            start,
                            dx as int,
                            dy as int,
                            pol,
                            cur,
                            k as int,
                        ));
                    }
                }
                proof {
                    assert forall|t: GridPosition| #[trigger]
                        result@.contains(t) <==> init.contains(t) || line_dest_upto(
                            bm,
                            color,
                            start,
                            dx as int,
                            dy as int,
                            k as int,
                            pol,
                            t,
                        ) by {
                        if line_dest_upto(bm, color, start, dx as int, dy as int, k as int, pol, t) {
                            let k2 = choose|k2: int|
                                #[trigger] line_dest_at(
                                    bm,
                                    color,
                                    start,
                                    dx as int,
                                    dy as int,
                                    pol,
                                    t,
                                    k2,
                                ) && k2 <= k;
                            if k2 == k {
                                assert(t == cur);
                            }
                        }
                    }
                }
            },
        }
    }
}

/// Runs the straight-line scan along the four axis directions.
fn build_cross(
    board: &BoardState,
    color: PieceColor,
    start: GridPosition,
    cap: Option<u16>,
    result: &mut Vec<GridPosition>,
)
    requires
        board.wf(),
        in_bounds_model(board@, start),
    ensures
        forall|t: GridPosition|
            #[trigger] final(result)@.contains(t) <==> old(result)@.contains(t) || axis_dest(
                board@,
                color,
                start,
                cap,
                t,
            ),
{
    let pol = InclusionPolicy { empty: true, same: false, different: true };
    scan_line(board, color, start, 1, 0, cap, pol, result);
    scan_line(board, color, start, 0, 1, cap, pol, result);
    scan_line(board, color, start, 0, -1, cap, pol, result);
    scan_line(board, color, start, -1, 0, cap, pol, result);
}

/// Runs the straight-line scan along the four diagonal directions.
fn build_diag_cross(
    board: &BoardState,
    color: PieceColor,
    start: GridPosition,
    cap: Option<u16>,
    result: &mut Vec<GridPosition>,
)
    requires
        board.wf(),
        in_bounds_model(board@, start),
    ensures
        forall|t: GridPosition|
            #[trigger] final(result)@.contains(t) <==> old(result)@.contains(t) || diag_dest(
                board@,
                color,
                start,
                cap,
                t,
            ),
{
    let pol = InclusionPolicy { empty: true, same: false, different: true };
    scan_line(board, color, start, 1, 1, cap, pol, result);
    scan_line(board, color, start, 1, -1, cap, pol, result);
    scan_line(board, color, start, -1, 1, cap, pol, result);
    scan_line(board, color, start, -1, -1, cap, pol, result);
}

/// Probes a single knight jump offset: the landing square is included if
/// it exists, is in bounds, and is not occupied by a same-color piece.
fn probe_jump(
    board: &BoardState,
    color: PieceColor,
    start: GridPosition,
    ddx: i32,
    ddy: i32,
    result: &mut Vec<GridPosition>,
)
    requires
        board.wf(),
        -2 <= ddx <= 2,
        -2 <= ddy <= 2,
    ensures
        forall|t: GridPosition|
            #[trigger] final(result)@.contains(t) <==> old(result)@.contains(t) || knight_jump(
                board@,
                color,
                start,
                ddx as int,
                ddy as int,
                t,
            ),
{
    match start.try_add(ddx, ddy) {
        Some(c) => {
            if board.in_bounds(c) {
                let same = match board.piece_at(c) {
                    Some(p) => p.color == color,
                    None => false,
                };
                if !same {
                    result.push(c);
                }
            }
        },
        None => {},
    }
}

impl Piece {
    /// Generates the pseudo-legal moveset: every square reachable by this
    /// piece's movement pattern given the snapshot's occupancy, without
    /// regard to whether the move would leave the mover's own king
    /// attacked.
    pub fn pseudo_moveset(&self, board: &BoardState) -> (moves: Vec<GridPosition>)
        requires
            board.wf(),
            in_bounds_model(board@, self.position),
        ensures
            forall|t: GridPosition|
                #[trigger] moves@.contains(t) <==> is_pseudo_dest(board@, *self, t),
    {
        let mut res: Vec<GridPosition> = Vec::new();
        match self.kind {
            PieceKind::Pawn => {
                let fy: i32 = match self.color {
                    PieceColor::Black => -1,
                    PieceColor::White => 1,
                };
                let step = InclusionPolicy { empty: true, same: false, different: false };
                let capture = InclusionPolicy { empty: false, same: false, different: true };
                scan_line(board, self.color, self.position, 0, fy, Some(1u16), step, &mut res);
                scan_line(board, self.color, self.position, 1, fy, Some(1u16), capture, &mut res);
                scan_line(board, self.color, self.position, -1, fy, Some(1u16), capture, &mut res);
            },
            PieceKind::Rook => {
                build_cross(board, self.color, self.position, None, &mut res);
            },
            PieceKind::Bishop => {
                build_diag_cross(board, self.color, self.position, None, &mut res);
            },
            PieceKind::Knight => {
                probe_jump(board, self.color, self.position, 2, 1, &mut res);
                probe_jump(board, self.color, self.position, 2, -1, &mut res);
                probe_jump(board, self.color, self.position, -2, 1, &mut res);
                probe_jump(board, self.color, self.position, -2, -1, &mut res);
                probe_jump(board, self.color, self.position, 1, 2, &mut res);
                probe_jump(board, self.color, self.position, 1, -2, &mut res);
                probe_jump(board, self.color, self.position, -1, 2, &mut res);
                probe_jump(board, self.color, self.position, -1, -2, &mut res);
            },
            PieceKind::Queen => {
                build_cross(board, self.color, self.position, None, &mut res);
                build_diag_cross(board, self.color, self.position, None, &mut res);
            },
            PieceKind::King => {
                build_cross(board, self.color, self.position, Some(1u16), &mut res);
                build_diag_cross(board, self.color, self.position, Some(1u16), &mut res);
            },
        }
        res
    }
}

} // verus!
