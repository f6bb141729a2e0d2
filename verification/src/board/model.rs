//! The mathematical model of a board position.
//!
//! A position is modelled as a map from squares to pieces together with the
//! board bounds.  All contracts of the executable code are stated over this
//! model: pseudo-legal destinations, attack sets, the result of applying a
//! move, and the verdict on a requested move.

use vstd::prelude::*;

use crate::board::GridPosition;
use crate::board::piece::{InclusionPolicy, MoveError, Piece, PieceColor, PieceKind};

verus! {

/// A point-in-time mathematical view of a board: which piece occupies which
/// square, and the board bounds.
pub struct BoardModel {
    pub occ: Map<GridPosition, Piece>,
    pub width: int,
    pub height: int,
}

/// The occupancy map of a sequence of pieces: each piece sits at its own
/// position.  When two pieces share a square, the later one wins; the
/// well-formedness invariants of this crate rule that out.
pub open spec fn occ_of(s: Seq<Piece>) -> Map<GridPosition, Piece>
    decreases s.len(),
{
    if s.len() == 0 {
        Map::empty()
    } else {
        occ_of(s.drop_last()).insert(s.last().position, s.last())
    }
}

/// No two pieces of the sequence share a square.
pub open spec fn distinct_positions(s: Seq<Piece>) -> bool {
    forall|i: int, j: int|
        0 <= i < j < s.len() ==> (#[trigger] s[i]).position != (#[trigger] s[j]).position
}

/// How `occ_of` relates to the sequence it was built from, when no two
/// pieces share a square: the keys are exactly the pieces' positions, and
/// each key maps to the piece standing there.
pub proof fn lemma_occ_of_props(s: Seq<Piece>)
    requires
        distinct_positions(s),
    ensures
        forall|t: GridPosition|
            #[trigger] occ_of(s).contains_key(t) ==> exists|i: int|
                0 <= i < s.len() && (#[trigger] s[i]).position == t,
        forall|i: int|
            0 <= i < s.len() ==> occ_of(s).contains_key((#[trigger] s[i]).position) && occ_of(
                s,
            )[s[i].position] == s[i],
        forall|t: GridPosition| #[trigger] occ_of(s).contains_key(t) ==> occ_of(s)[t].position == t,
    decreases s.len(),
{
    if s.len() > 0 {
        let s0 = s.drop_last();
        lemma_occ_of_props(s0);
        assert forall|t: GridPosition| #[trigger]
            occ_of(s).contains_key(t) implies exists|i: int|
            0 <= i < s.len() && (#[trigger] s[i]).position == t by {
            if t == s.last().position {
                assert(s[s.len() - 1].position == t);
            } else {
                assert(occ_of(s0).contains_key(t));
                let i = choose|i: int| 0 <= i < s0.len() && (#[trigger] s0[i]).position == t;
                assert(s[i].position == t);
            }
        }
        assert forall|i: int| 0 <= i < s.len() implies occ_of(s).contains_key(
            (#[trigger] s[i]).position,
        ) && occ_of(s)[s[i].position] == s[i] by {
            if i == s.len() - 1 {
            } else {
                assert(s0[i] == s[i]);
                assert(s[i].position != s.last().position);
            }
        }
    }
}

/// Removing the piece at index `i` by a swap with the last element removes
/// exactly its square from the occupancy map.
pub proof fn lemma_occ_of_swap_remove(s: Seq<Piece>, i: int)
    requires
        distinct_positions(s),
        0 <= i < s.len(),
    ensures
        distinct_positions(s.update(i, s.last()).drop_last()),
        occ_of(s.update(i, s.last()).drop_last()) == occ_of(s).remove(s[i].position),
{
    let s1 = s.update(i, s.last()).drop_last();
    let n = s.len() as int;
    let from = s[i].position;
    assert(s1.len() == n - 1);
    assert forall|a: int| 0 <= a < n - 1 implies #[trigger] s1[a] == (if a == i {
        s[n - 1]
    } else {
        s[a]
    }) by {}
    assert forall|a: int, b: int| 0 <= a < b < s1.len() implies (#[trigger] s1[a]).position != (
    #[trigger] s1[b]).position by {
        let sa = if a == i { n - 1 } else { a };
        let sb = if b == i { n - 1 } else { b };
        assert(s1[a] == s[sa] && s1[b] == s[sb]);
        assert(sa != sb);
    }
    lemma_occ_of_props(s);
    lemma_occ_of_props(s1);
    assert forall|t: GridPosition| #[trigger] occ_of(s1).contains_key(t) implies occ_of(s).remove(
        from,
    ).contains_key(t) && occ_of(s1)[t] == occ_of(s).remove(from)[t] by {
        let a = choose|a: int| 0 <= a < s1.len() && (#[trigger] s1[a]).position == t;
        let src = if a == i { n - 1 } else { a };
        assert(s1[a] == s[src]);
        assert(src != i);
        assert(occ_of(s)[t] == s[src]);
        assert(t != from);
        assert(occ_of(s1)[t] == s1[a]);
    }
    assert forall|t: GridPosition| #[trigger]
        occ_of(s).remove(from).contains_key(t) implies occ_of(s1).contains_key(t) by {
        assert(occ_of(s).contains_key(t) && t != from);
        let a = choose|a: int| 0 <= a < s.len() && (#[trigger] s[a]).position == t;
        assert(a != i);
        let dst = if a == n - 1 { i } else { a };
        assert(s1[dst] == s[a]);
    }
    assert(occ_of(s1) =~= occ_of(s).remove(from));
}

/// Appending a piece on a fresh square inserts exactly that square into the
/// occupancy map.
pub proof fn lemma_occ_of_push(s: Seq<Piece>, p: Piece)
    requires
        distinct_positions(s),
        forall|j: int| 0 <= j < s.len() ==> (#[trigger] s[j]).position != p.position,
    ensures
        distinct_positions(s.push(p)),
        occ_of(s.push(p)) == occ_of(s).insert(p.position, p),
{
    let s1 = s.push(p);
    assert(s1.drop_last() =~= s);
    assert(s1.last() == p);
    assert forall|a: int, b: int| 0 <= a < b < s1.len() implies (#[trigger] s1[a]).position != (
    #[trigger] s1[b]).position by {
        if b == s1.len() - 1 {
            assert(s1[a] == s[a]);
        } else {
            assert(s1[a] == s[a] && s1[b] == s[b]);
        }
    }
}

/// Replacing the piece at index `i` with a piece on a square held by no
/// other piece removes the old square from the occupancy map and inserts
/// the new one.
pub proof fn lemma_occ_of_update(s: Seq<Piece>, i: int, q: Piece)
    requires
        distinct_positions(s),
        0 <= i < s.len(),
        forall|j: int| 0 <= j < s.len() && j != i ==> (#[trigger] s[j]).position != q.position,
    ensures
        distinct_positions(s.update(i, q)),
        occ_of(s.update(i, q)) == occ_of(s).remove(s[i].position).insert(q.position, q),
{
    let s1 = s.update(i, q);
    let from = s[i].position;
    assert forall|a: int, b: int| 0 <= a < b < s1.len() implies (#[trigger] s1[a]).position != (
    #[trigger] s1[b]).position by {
        if a != i && b != i {
            assert(s1[a] == s[a] && s1[b] == s[b]);
        }
    }
    lemma_occ_of_props(s);
    lemma_occ_of_props(s1);
    assert forall|t: GridPosition| #[trigger] occ_of(s1).contains_key(t) implies occ_of(s).remove(
        from,
    ).insert(q.position, q).contains_key(t) && occ_of(s1)[t] == occ_of(s).remove(from).insert(
        q.position,
        q,
    )[t] by {
        let a = choose|a: int| 0 <= a < s1.len() && (#[trigger] s1[a]).position == t;
        assert(occ_of(s1)[t] == s1[a]);
        if a == i {
            assert(s1[a] == q);
        } else {
            assert(s1[a] == s[a]);
            assert(occ_of(s)[t] == s[a]);
            assert(t != from);
            assert(t != q.position);
        }
    }
    assert forall|t: GridPosition| #[trigger]
        occ_of(s).remove(from).insert(q.position, q).contains_key(t) implies occ_of(
        s1,
    ).contains_key(t) by {
        if t == q.position {
            assert(s1[i].position == t);
        } else {
            assert(occ_of(s).contains_key(t) && t != from);
            let a = choose|a: int| 0 <= a < s.len() && (#[trigger] s[a]).position == t;
            assert(a != i);
            assert(s1[a] == s[a]);
        }
    }
    assert(occ_of(s1) =~= occ_of(s).remove(from).insert(q.position, q));
}

/// Concatenating two piece lists with disjoint squares unions their
/// occupancy maps.
pub proof fn lemma_occ_of_concat(a: Seq<Piece>, b: Seq<Piece>)
    requires
        distinct_positions(a),
        distinct_positions(b),
        forall|i: int, j: int|
            0 <= i < a.len() && 0 <= j < b.len() ==> (#[trigger] a[i]).position != (
            #[trigger] b[j]).position,
    ensures
        distinct_positions(a + b),
        occ_of(a + b) == occ_of(a).union_prefer_right(occ_of(b)),
{
    let s = a + b;
    let n = a.len() as int;
    assert forall|i: int, j: int| 0 <= i < j < s.len() implies (#[trigger] s[i]).position != (
    #[trigger] s[j]).position by {
        if j < n {
            assert(s[i] == a[i] && s[j] == a[j]);
        } else if i < n {
            assert(s[i] == a[i] && s[j] == b[j - n]);
        } else {
            assert(s[i] == b[i - n] && s[j] == b[j - n]);
        }
    }
    lemma_occ_of_props(a);
    lemma_occ_of_props(b);
    lemma_occ_of_props(s);
    let u = occ_of(a).union_prefer_right(occ_of(b));
    assert forall|t: GridPosition| #[trigger] occ_of(s).contains_key(t) implies u.contains_key(t)
        && occ_of(s)[t] == u[t] by {
        let i = choose|i: int| 0 <= i < s.len() && (#[trigger] s[i]).position == t;
        assert(occ_of(s)[t] == s[i]);
        if i < n {
            assert(s[i] == a[i]);
            assert(occ_of(a)[t] == a[i]);
            assert(!occ_of(b).contains_key(t)) by {
                if occ_of(b).contains_key(t) {
                    let j = choose|j: int| 0 <= j < b.len() && (#[trigger] b[j]).position == t;
                }
            }
        } else {
            assert(s[i] == b[i - n]);
            assert(occ_of(b)[t] == b[i - n]);
        }
    }
    assert forall|t: GridPosition| #[trigger] u.contains_key(t) implies occ_of(s).contains_key(
        t,
    ) by {
        if occ_of(b).contains_key(t) {
            let j = choose|j: int| 0 <= j < b.len() && (#[trigger] b[j]).position == t;
            assert(s[n + j] == b[j]);
        } else {
            let i = choose|i: int| 0 <= i < a.len() && (#[trigger] a[i]).position == t;
            assert(s[i] == a[i]);
        }
    }
    assert(occ_of(s) =~= u);
}

/// The square lies inside the model's bounds.
pub open spec fn in_bounds_model(bm: BoardModel, t: GridPosition) -> bool {
    t.x < bm.width && t.y < bm.height
}

/// Some piece occupies the square with the given integer coordinates.
/// Coordinates outside the representable square range are unoccupied.
pub open spec fn occupied_xy(bm: BoardModel, x: int, y: int) -> bool {
    0 <= x < 0x10000 && 0 <= y < 0x10000 && bm.occ.contains_key(
        (GridPosition { x: x as u16, y: y as u16 }),
    )
}

/// `t` is the `k`-th square along the ray from `s` in direction `(dx, dy)`.
pub open spec fn ray_hits(s: GridPosition, dx: int, dy: int, k: int, t: GridPosition) -> bool {
    t.x == s.x + k * dx && t.y == s.y + k * dy
}

/// The `j`-th square along the ray from `s` in direction `(dx, dy)` is
/// occupied.
pub open spec fn ray_occupied(bm: BoardModel, s: GridPosition, dx: int, dy: int, j: int) -> bool {
    occupied_xy(bm, s.x + j * dx, s.y + j * dy)
}

/// Distance `k` is within the scan's cap (`None` caps nothing).
pub open spec fn cap_allows(cap: Option<u16>, k: int) -> bool {
    match cap {
        Some(m) => k <= m,
        None => true,
    }
}

/// Whether the scan's inclusion policy admits the square `t`: empty squares
/// by `empty`, same-color occupants by `same`, opposite-color occupants by
/// `different`.
pub open spec fn policy_admits(
    bm: BoardModel,
    c: PieceColor,
    pol: InclusionPolicy,
    t: GridPosition,
) -> bool {
    if bm.occ.contains_key(t) {
        if bm.occ[t].color == c {
            pol.same
        } else {
            pol.different
        }
    } else {
        pol.empty
    }
}

/// `t` is the destination at distance exactly `k` of the straight-line
/// scan from `s` in direction `(dx, dy)` for a piece of color `c`: it lies
/// on the ray, inside the bounds, every square strictly before it on the
/// ray is empty, and the inclusion policy admits it.
pub open spec fn line_dest_at(
    bm: BoardModel,
    c: PieceColor,
    s: GridPosition,
    dx: int,
    dy: int,
    pol: InclusionPolicy,
    t: GridPosition,
    k: int,
) -> bool {
    &&& 1 <= k
    &&& ray_hits(s, dx, dy, k, t)
    &&& in_bounds_model(bm, t)
    &&& forall|j: int| 1 <= j < k ==> !#[trigger] ray_occupied(bm, s, dx, dy, j)
    &&& policy_admits(bm, c, pol, t)
}

/// `t` is a destination of the straight-line scan from `s` in direction
/// `(dx, dy)`, at some distance within the cap.
pub open spec fn line_dest(
    bm: BoardModel,
    c: PieceColor,
    s: GridPosition,
    dx: int,
    dy: int,
    cap: Option<u16>,
    pol: InclusionPolicy,
    t: GridPosition,
) -> bool {
    exists|k: int| #[trigger] line_dest_at(bm, c, s, dx, dy, pol, t, k) && cap_allows(cap, k)
}

/// `t` is a destination of the scan at some distance at most `kmax`.
pub open spec fn line_dest_upto(
    bm: BoardModel,
    c: PieceColor,
    s: GridPosition,
    dx: int,
    dy: int,
    kmax: int,
    pol: InclusionPolicy,
    t: GridPosition,
) -> bool {
    exists|k: int| #[trigger] line_dest_at(bm, c, s, dx, dy, pol, t, k) && k <= kmax
}

/// Multiplication by a direction component, which is always one of
/// `-1`, `0`, `1`.
pub proof fn lemma_mul_unit(a: int, d: int)
    requires
        -1 <= d <= 1,
    ensures
        d == 1 ==> a * d == a,
        d == 0 ==> a * d == 0,
        d == -1 ==> a * d == -a,
{
    assert(d == 1 ==> a * d == a) by (nonlinear_arith);
    assert(d == 0 ==> a * d == 0) by (nonlinear_arith);
    assert(d == -1 ==> a * d == -a) by (nonlinear_arith);
}

/// Walking a single axis: once the next step leaves the interval
/// `[0, bound)`, every later step stays outside it.
pub proof fn lemma_axis_stays_out(c: int, d: int, bound: int, m: int)
    requires
        -1 <= d <= 1,
        0 <= c < bound,
        !(0 <= c + d < bound),
        1 <= m,
    ensures
        !(0 <= c + m * d < bound),
{
    lemma_mul_unit(m, d);
}

/// A scan stopped on an occupied square at distance `k` has already seen
/// every destination: squares past the blocker are unreachable.
pub proof fn lemma_scan_stopped_blocked(
    bm: BoardModel,
    c: PieceColor,
    s: GridPosition,
    dx: int,
    dy: int,
    cap: Option<u16>,
    pol: InclusionPolicy,
    k: int,
)
    requires
        1 <= k,
        cap_allows(cap, k),
        ray_occupied(bm, s, dx, dy, k),
    ensures
        forall|t: GridPosition|
            line_dest(bm, c, s, dx, dy, cap, pol, t) <==> line_dest_upto(bm, c, s, dx, dy, k, pol, t),
{
    assert forall|t: GridPosition|
        line_dest(bm, c, s, dx, dy, cap, pol, t) <==> line_dest_upto(
            bm,
            c,
            s,
            dx,
            dy,
            k,
            pol,
            t,
        ) by {
        if line_dest(bm, c, s, dx, dy, cap, pol, t) {
            let k2 = choose|k2: int|
                #[trigger] line_dest_at(bm, c, s, dx, dy, pol, t, k2) && cap_allows(cap, k2);
            if k2 > k {
                assert(!ray_occupied(bm, s, dx, dy, k));
            }
        }
        if line_dest_upto(bm, c, s, dx, dy, k, pol, t) {
            let k2 = choose|k2: int|
                #[trigger] line_dest_at(bm, c, s, dx, dy, pol, t, k2) && k2 <= k;
            assert(cap_allows(cap, k2));
        }
    }
}

/// A scan stopped at distance `k` because the next square would leave the
/// board bounds or the representable range has already seen every
/// destination.
pub proof fn lemma_scan_stopped_out(
    bm: BoardModel,
    c: PieceColor,
    s: GridPosition,
    dx: int,
    dy: int,
    cap: Option<u16>,
    pol: InclusionPolicy,
    k: int,
    cx: int,
    cy: int,
)
    requires
        -1 <= dx <= 1,
        -1 <= dy <= 1,
        0 <= k,
        cap_allows(cap, k),
        cx == s.x + k * dx,
        cy == s.y + k * dy,
        0 <= cx < bm.width,
        0 <= cy < bm.height,
        bm.width <= 0xffff,
        bm.height <= 0xffff,
        (!(0 <= cx + dx < 0xffff) || !(0 <= cy + dy < 0xffff) || cx + dx >= bm.width || cy + dy
            >= bm.height),
    ensures
        forall|t: GridPosition|
            line_dest(bm, c, s, dx, dy, cap, pol, t) <==> line_dest_upto(bm, c, s, dx, dy, k, pol, t),
{
    assert forall|t: GridPosition|
        line_dest(bm, c, s, dx, dy, cap, pol, t) <==> line_dest_upto(
            bm,
            c,
            s,
            dx,
            dy,
            k,
            pol,
            t,
        ) by {
        if line_dest(bm, c, s, dx, dy, cap, pol, t) {
            let k2 = choose|k2: int|
                #[trigger] line_dest_at(bm, c, s, dx, dy, pol, t, k2) && cap_allows(cap, k2);
            if k2 > k {
                let m = k2 - k;
                assert(k2 * dx == k * dx + m * dx && k2 * dy == k * dy + m * dy)
                    by (nonlinear_arith)
                    requires
                        m == k2 - k,
                ;
                assert(t.x == cx + m * dx && t.y == cy + m * dy);
                if !(0 <= cx + dx < 0xffff) {
                    lemma_axis_stays_out(cx, dx, 0xffff, m);
                    assert(t.x == 0xffff);
                    assert(!in_bounds_model(bm, t));
                } else if !(0 <= cy + dy < 0xffff) {
                    lemma_axis_stays_out(cy, dy, 0xffff, m);
                    assert(t.y == 0xffff);
                    assert(!in_bounds_model(bm, t));
                } else if cx + dx >= bm.width {
                    lemma_axis_stays_out(cx, dx, bm.width, m);
                    assert(!in_bounds_model(bm, t));
                } else {
                    lemma_axis_stays_out(cy, dy, bm.height, m);
                    assert(!in_bounds_model(bm, t));
                }
                assert(false);
            }
        }
        if line_dest_upto(bm, c, s, dx, dy, k, pol, t) {
            let k2 = choose|k2: int|
                #[trigger] line_dest_at(bm, c, s, dx, dy, pol, t, k2) && k2 <= k;
            assert(cap_allows(cap, k2));
        }
    }
}

/// A scan stopped by reaching its cap has already seen every destination.
pub proof fn lemma_scan_stopped_cap(
    bm: BoardModel,
    c: PieceColor,
    s: GridPosition,
    dx: int,
    dy: int,
    m: u16,
    pol: InclusionPolicy,
    k: int,
)
    requires
        k == m,
    ensures
        forall|t: GridPosition|
            line_dest(bm, c, s, dx, dy, Some(m), pol, t) <==> line_dest_upto(
                bm,
                c,
                s,
                dx,
                dy,
                k,
                pol,
                t,
            ),
{
}

/// The scan policy of sliding pieces and of the king: empty squares and
/// captures of opposite-color pieces.
pub open spec fn slide_policy() -> InclusionPolicy {
    InclusionPolicy { empty: true, same: false, different: true }
}

/// The pawn's forward step: empty squares only.
pub open spec fn step_policy() -> InclusionPolicy {
    InclusionPolicy { empty: false, same: false, different: false }
}

/// A destination along one of the four axis directions.
pub open spec fn axis_dest(
    bm: BoardModel,
    c: PieceColor,
    s: GridPosition,
    cap: Option<u16>,
    t: GridPosition,
) -> bool {
    ||| line_dest(bm, c, s, 1, 0, cap, slide_policy(), t)
    ||| line_dest(bm, c, s, 0, 1, cap, slide_policy(), t)
    ||| line_dest(bm, c, s, 0, -1, cap, slide_policy(), t)
    ||| line_dest(bm, c, s, -1, 0, cap, slide_policy(), t)
}

/// A destination along one of the four diagonal directions.
pub open spec fn diag_dest(
    bm: BoardModel,
    c: PieceColor,
    s: GridPosition,
    cap: Option<u16>,
    t: GridPosition,
) -> bool {
    ||| line_dest(bm, c, s, 1, 1, cap, slide_policy(), t)
    ||| line_dest(bm, c, s, 1, -1, cap, slide_policy(), t)
    ||| line_dest(bm, c, s, -1, 1, cap, slide_policy(), t)
    ||| line_dest(bm, c, s, -1, -1, cap, slide_policy(), t)
}

/// The rank direction a pawn of color `c` moves in.
pub open spec fn forward_dy(c: PieceColor) -> int {
    match c {
        PieceColor::Black => -1,
        PieceColor::White => 1,
    }
}

/// A knight destination offset by `(ddx, ddy)`: in bounds and not occupied
/// by a same-color piece.
pub open spec fn knight_jump(
    bm: BoardModel,
    c: PieceColor,
    s: GridPosition,
    ddx: int,
    ddy: int,
    t: GridPosition,
) -> bool {
    &&& t.x == s.x + ddx
    &&& t.y == s.y + ddy
    &&& in_bounds_model(bm, t)
    &&& !(bm.occ.contains_key(t) && bm.occ[t].color == c)
}

/// A destination of one of the knight's eight two-by-one jumps.
pub open spec fn knight_dest(bm: BoardModel, c: PieceColor, s: GridPosition, t: GridPosition) -> bool {
    ||| knight_jump(bm, c, s, 2, 1, t)
    ||| knight_jump(bm, c, s, 2, -1, t)
    ||| knight_jump(bm, c, s, -2, 1, t)
    ||| knight_jump(bm, c, s, -2, -1, t)
    ||| knight_jump(bm, c, s, 1, 2, t)
    ||| knight_jump(bm, c, s, 1, -2, t)
    ||| knight_jump(bm, c, s, -1, 2, t)
    ||| knight_jump(bm, c, s, -1, -2, t)
}

/// A pawn destination: one forward step onto an empty square, or one of the
/// two forward-diagonal squares when occupied by an opposite-color piece.
pub open spec fn pawn_dest(bm: BoardModel, c: PieceColor, s: GridPosition, t: GridPosition) -> bool {
    ||| line_dest(
        bm,
        c,
        s,
        0,
        forward_dy(c),
        Some(1u16),
        (InclusionPolicy { empty: true, same: false, different: false }),
        t,
    )
    ||| line_dest(
        bm,
        c,
        s,
        1,
        forward_dy(c),
        Some(1u16),
        (InclusionPolicy { empty: false, same: false, different: true }),
        t,
    )
    ||| line_dest(
        bm,
        c,
        s,
        -1,
        forward_dy(c),
        Some(1u16),
        (InclusionPolicy { empty: false, same: false, different: true }),
        t,
    )
}

/// The pseudo-legal destination set, per piece kind: squares reachable by
/// the piece's movement pattern and current occupancy, without regard to
/// whether the move would leave the mover's own king attacked.
pub open spec fn is_pseudo_dest(bm: BoardModel, p: Piece, t: GridPosition) -> bool {
    match p.kind {
        PieceKind::Pawn => pawn_dest(bm, p.color, p.position, t),
        PieceKind::Rook => axis_dest(bm, p.color, p.position, None, t),
        PieceKind::Bishop => diag_dest(bm, p.color, p.position, None, t),
        PieceKind::Knight => knight_dest(bm, p.color, p.position, t),
        PieceKind::Queen => axis_dest(bm, p.color, p.position, None, t) || diag_dest(
            bm,
            p.color,
            p.position,
            None,
            t,
        ),
        PieceKind::King => axis_dest(bm, p.color, p.position, Some(1u16), t) || diag_dest(
            bm,
            p.color,
            p.position,
            Some(1u16),
            t,
        ),
    }
}

/// The square `t` is attacked by color `c`: some piece of that color has
/// `t` among its pseudo-legal destinations.
pub open spec fn attacked(bm: BoardModel, c: PieceColor, t: GridPosition) -> bool {
    exists|sq: GridPosition|
        {
            &&& #[trigger] bm.occ.contains_key(sq)
            &&& bm.occ[sq].color == c
            &&& is_pseudo_dest(bm, bm.occ[sq], t)
        }
}

/// The other color.
pub open spec fn opposite(c: PieceColor) -> PieceColor {
    match c {
        PieceColor::Black => PieceColor::White,
        PieceColor::White => PieceColor::Black,
    }
}

/// The occupancy after the unchecked simulation primitive moves whatever
/// sits at `from` to `to`: the mover leaves `from`, replaces any occupant
/// of `to`, and its position field is updated.  With no piece at `from`,
/// nothing changes.
pub open spec fn apply_move_occ(
    occ: Map<GridPosition, Piece>,
    from: GridPosition,
    to: GridPosition,
) -> Map<GridPosition, Piece> {
    if !occ.contains_key(from) {
        occ
    } else {
        occ.remove(from).insert(to, (Piece { position: to, ..occ[from] }))
    }
}

/// The move of `piece` to `to` is check-unsafe: after simulating the move,
/// the opposite color attacks the mover's cached king square, or, when the
/// mover is itself the king, attacks the destination.
pub open spec fn move_is_unsafe(
    bm: BoardModel,
    piece: Piece,
    to: GridPosition,
    king_sq: GridPosition,
) -> bool {
    let after = BoardModel {
        occ: apply_move_occ(bm.occ, piece.position, to),
        width: bm.width,
        height: bm.height,
    };
    attacked(after, opposite(piece.color), king_sq) || (piece.kind == PieceKind::King && attacked(
        after,
        opposite(piece.color),
        to,
    ))
}

/// The engine's verdict on moving whatever sits at `from` to `to`, given
/// the cached king squares of the two sides: `InvalidOrigin` when `from` is
/// empty, `Illegal` when `to` is not pseudo-legal for the piece at `from`,
/// `Unsafe` when the simulated move leaves the mover's king attacked, and
/// acceptance otherwise.
pub open spec fn move_verdict(
    bm: BoardModel,
    black_king: GridPosition,
    white_king: GridPosition,
    from: GridPosition,
    to: GridPosition,
) -> Result<(), MoveError> {
    if !bm.occ.contains_key(from) {
        Err(MoveError::InvalidOrigin)
    } else {
        let piece = bm.occ[from];
        let king_sq = match piece.color {
            PieceColor::Black => black_king,
            PieceColor::White => white_king,
        };
        if !is_pseudo_dest(bm, piece, to) {
            Err(MoveError::Illegal)
        } else if move_is_unsafe(bm, piece, to, king_sq) {
            Err(MoveError::Unsafe)
        } else {
            Ok(())
        }
    }
}

/// The mover's roster occupancy after an accepted move: the piece leaves
/// `from` and stands at `to` with its position updated.
pub open spec fn roster_after_move(
    occ: Map<GridPosition, Piece>,
    piece: Piece,
    from: GridPosition,
    to: GridPosition,
) -> Map<GridPosition, Piece> {
    occ.remove(from).insert(to, (Piece { position: to, ..piece }))
}

/// The opponent's roster occupancy after an accepted move: any piece at the
/// destination is captured.
pub open spec fn enemy_after_move(
    occ: Map<GridPosition, Piece>,
    to: GridPosition,
) -> Map<GridPosition, Piece> {
    occ.remove(to)
}

/// The cached king square of the mover's side after an accepted move.
pub open spec fn king_after_move(old_king: GridPosition, piece: Piece, to: GridPosition) -> GridPosition {
    if piece.kind == PieceKind::King {
        to
    } else {
        old_king
    }
}

} // verus!
