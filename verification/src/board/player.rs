//! Side rosters: the live pieces of one color and the cached king square.

use vstd::pervasive::VecAdditionalExecFns;
use vstd::prelude::*;

use crate::board::laws::{
    lemma_no_self_capture, lemma_pseudo_dest_in_bounds, lemma_pseudo_dest_not_origin,
};
use crate::board::model::{
    apply_move_occ, distinct_positions, enemy_after_move, king_after_move, lemma_occ_of_concat,
    lemma_occ_of_props, lemma_occ_of_swap_remove, lemma_occ_of_update, move_verdict, occ_of,
    opposite, roster_after_move, BoardModel,
};
use crate::board::piece::{MoveError, Piece, PieceColor, PieceKind};
use crate::board::{contains_position, copy_vec, find_index, BoardState, GridPosition};

verus! {

/// The roster of one side: the color's live pieces and its king's current
/// square, kept in sync whenever the king moves.  Exactly one king exists
/// per roster at all times; no king capture is modelled.
pub struct Player {
    pub color: PieceColor,
    pub king_position: GridPosition,
    pub pieces: Vec<Piece>,
}

impl Player {
    /// The roster's occupancy: each live piece at its own square.
    pub open spec fn occ(self) -> Map<GridPosition, Piece> {
        occ_of(self.pieces@)
    }

    /// Well-formedness: no two pieces share a square, every piece has the
    /// roster's color, and exactly one King exists, standing on the cached
    /// king square.
    pub open spec fn wf(self) -> bool {
        &&& distinct_positions(self.pieces@)
        &&& forall|i: int|
            0 <= i < self.pieces@.len() ==> (#[trigger] self.pieces@[i]).color == self.color
        &&& exists|i: int|
            0 <= i < self.pieces@.len() && (#[trigger] self.pieces@[i]).kind == PieceKind::King
                && self.pieces@[i].position == self.king_position
        &&& forall|i: int, j: int|
            0 <= i < j < self.pieces@.len() ==> !((#[trigger] self.pieces@[i]).kind
                == PieceKind::King && (#[trigger] self.pieces@[j]).kind == PieceKind::King)
    }

    /// In a well-formed roster the cached king square holds the King, and
    /// no other square holds one.
    pub proof fn lemma_king(self)
        requires
            self.wf(),
        ensures
            self.occ().contains_key(self.king_position),
            self.occ()[self.king_position].kind == PieceKind::King,
            forall|t: GridPosition|
                #[trigger] self.occ().contains_key(t) && self.occ()[t].kind == PieceKind::King
                    ==> t == self.king_position,
    {
        lemma_occ_of_props(self.pieces@);
        let ki = choose|i: int|
            0 <= i < self.pieces@.len() && (#[trigger] self.pieces@[i]).kind == PieceKind::King
                && self.pieces@[i].position == self.king_position;
        assert(self.occ()[self.king_position] == self.pieces@[ki]);
        assert forall|t: GridPosition|
            #[trigger] self.occ().contains_key(t) && self.occ()[t].kind
                == PieceKind::King implies t == self.king_position by {
            let i = choose|i: int|
                0 <= i < self.pieces@.len() && (#[trigger] self.pieces@[i]).position == t;
            assert(self.occ()[t] == self.pieces@[i]);
            assert(i == ki);
        }
    }

    /// A fresh roster holding only its King on the given square.
    pub fn new(king_position: GridPosition, color: PieceColor) -> (r: Player)
        ensures
            r.wf(),
            r.color == color,
            r.king_position == king_position,
            r.pieces@ == seq![(Piece { kind: PieceKind::King, color, position: king_position })],
    {
        let king = Piece { kind: PieceKind::King, color, position: king_position };
        let mut pieces: Vec<Piece> = Vec::new();
        pieces.push(king);
        proof {
            assert(pieces@ =~= seq![king]);
            assert(pieces@[0] == king);
        }
        Player { color, king_position, pieces }
    }

    /// Adds a batch of non-king pieces to the roster, on squares the
    /// roster does not already hold.
    pub fn append_pieces(&mut self, pieces: Vec<Piece>)
        requires
            old(self).wf(),
            distinct_positions(pieces@),
            forall|i: int| 0 <= i < pieces@.len() ==> (#[trigger] pieces@[i]).color == old(self).color,
            forall|i: int| 0 <= i < pieces@.len() ==> (#[trigger] pieces@[i]).kind != PieceKind::King,
            forall|i: int, j: int|
                0 <= i < old(self).pieces@.len() && 0 <= j < pieces@.len() ==> (#[trigger] old(
                    self,
                ).pieces@[i]).position != (#[trigger] pieces@[j]).position,
        ensures
            final(self).wf(),
            final(self).color == old(self).color,
            final(self).king_position == old(self).king_position,
            final(self).pieces@ == old(self).pieces@ + pieces@,
            final(self).occ() == old(self).occ().union_prefer_right(occ_of(pieces@)),
    {
        proof {
            lemma_occ_of_concat(self.pieces@, pieces@);
        }
        let mut pieces = pieces;
        let ghost added = pieces@;
        let ghost before = self.pieces@;
        self.pieces.append(&mut pieces);
        proof {
            let s = self.pieces@;
            let ki = choose|i: int|
                0 <= i < before.len() && (#[trigger] before[i]).kind == PieceKind::King
                    && before[i].position == self.king_position;
            assert(s[ki] == before[ki]);
            assert forall|i: int, j: int| 0 <= i < j < s.len() implies !((#[trigger] s[i]).kind
                == PieceKind::King && (#[trigger] s[j]).kind == PieceKind::King) by {
                if j >= before.len() {
                    assert(s[j] == added[j - before.len()]);
                }
            }
        }
    }

    /// Removes and returns the piece standing on `position`, if any.  The
    /// king is never removed: callers may not name its square.
    pub fn remove_piece_at(&mut self, position: GridPosition) -> (r: Option<Piece>)
        requires
            old(self).wf(),
            position != old(self).king_position,
        ensures
            final(self).wf(),
            final(self).color == old(self).color,
            final(self).king_position == old(self).king_position,
            final(self).occ() == old(self).occ().remove(position),
            r is Some <==> old(self).occ().contains_key(position),
            r matches Some(p) ==> p == old(self).occ()[position],
    {
        proof {
            lemma_occ_of_props(self.pieces@);
        }
        match find_index(&self.pieces, position) {
            None => {
                proof {
                    assert(self.occ() =~= self.occ().remove(position));
                }
                None
            },
            Some(i) => {
                let ghost s = self.pieces@;
                let ghost n = s.len() as int;
                proof {
                    lemma_occ_of_swap_remove(s, i as int);
                }
                let removed = self.pieces.swap_remove(i);
                proof {
                    let s1 = self.pieces@;
                    let ki = choose|a: int|
                        0 <= a < s.len() && (#[trigger] s[a]).kind == PieceKind::King
                            && s[a].position == self.king_position;
                    assert(ki != i);
                    let ki1 = if ki == n - 1 { i as int } else { ki };
                    assert(s1[ki1] == s[ki]);
                    assert forall|a: int, b: int| 0 <= a < b < s1.len() implies !((
                    #[trigger] s1[a]).kind == PieceKind::King && (#[trigger] s1[b]).kind
                        == PieceKind::King) by {
                        let sa = if a == i { n - 1 } else { a };
                        let sb = if b == i { n - 1 } else { b };
                        assert(s1[a] == s[sa] && s1[b] == s[sb]);
                        assert(sa != sb);
                    }
                }
                Some(removed)
            },
        }
    }

    /// Moves the roster's piece standing on `from` to the free square
    /// `to`, updating the cached king square when the King itself moves.
    pub(crate) fn relocate(&mut self, from: GridPosition, to: GridPosition)
        requires
            old(self).wf(),
            old(self).occ().contains_key(from),
            !old(self).occ().contains_key(to),
        ensures
            final(self).wf(),
            final(self).color == old(self).color,
            final(self).occ() == roster_after_move(old(self).occ(), old(self).occ()[from], from, to),
            final(self).king_position == king_after_move(
                old(self).king_position,
                old(self).occ()[from],
                to,
            ),
    {
        proof {
            lemma_occ_of_props(self.pieces@);
        }
        let idx = match find_index(&self.pieces, from) {
            Some(i) => i,
            None => {
                proof {
                    assert(false);
                }
                0
            },
        };
        let ghost s = self.pieces@;
        let p = self.pieces[idx];
        let q = Piece { position: to, ..p };
        proof {
            assert(self.occ()[from] == p);
            assert forall|j: int| 0 <= j < s.len() && j != idx implies (#[trigger] s[j]).position
                != q.position by {
                if s[j].position == to {
                    assert(self.occ().contains_key(to));
                }
            }
            lemma_occ_of_update(s, idx as int, q);
        }
        self.pieces.set(idx, q);
        if matches!(p.kind, PieceKind::King) {
            self.king_position = to;
        }
        proof {
            let s1 = self.pieces@;
            let ki = choose|a: int|
                0 <= a < s.len() && (#[trigger] s[a]).kind == PieceKind::King && s[a].position
                    == old(self).king_position;
            assert forall|a: int, b: int| 0 <= a < b < s1.len() implies !((#[trigger] s1[a]).kind
                == PieceKind::King && (#[trigger] s1[b]).kind == PieceKind::King) by {
                if a != idx && b != idx {
                    assert(s1[a] == s[a] && s1[b] == s[b]);
                }
            }
            if p.kind == PieceKind::King {
                assert(ki == idx);
                assert(s1[idx as int] == q);
            } else {
                assert(ki != idx);
                assert(s1[ki] == s[ki]);
            }
        }
    }
}

/// The two side rosters together.
pub struct Players {
    pub black: Player,
    pub white: Player,
}

impl Players {
    /// The occupancy of one side's roster.
    pub open spec fn occ_of_color(self, c: PieceColor) -> Map<GridPosition, Piece> {
        match c {
            PieceColor::Black => self.black.occ(),
            PieceColor::White => self.white.occ(),
        }
    }

    /// The combined occupancy of both rosters.
    pub open spec fn occ(self) -> Map<GridPosition, Piece> {
        self.black.occ().union_prefer_right(self.white.occ())
    }

    /// The cached king square of one side.
    pub open spec fn king_of(self, c: PieceColor) -> GridPosition {
        match c {
            PieceColor::Black => self.black.king_position,
            PieceColor::White => self.white.king_position,
        }
    }

    /// Well-formedness: both rosters are well-formed, carry their own
    /// color, and no square is occupied by both sides.
    pub open spec fn wf(self) -> bool {
        &&& self.black.wf()
        &&& self.white.wf()
        &&& self.black.color == PieceColor::Black
        &&& self.white.color == PieceColor::White
        &&& forall|t: GridPosition|
            #![trigger self.black.occ().contains_key(t)]
            #![trigger self.white.occ().contains_key(t)]
            !(self.black.occ().contains_key(t) && self.white.occ().contains_key(t))
    }

    /// How the combined occupancy relates to the rosters: keys come from
    /// exactly one roster, values keep their roster, square and color.
    pub proof fn lemma_occ(self)
        requires
            self.wf(),
        ensures
            forall|t: GridPosition|
                #[trigger] self.occ().contains_key(t) <==> (self.black.occ().contains_key(t)
                    || self.white.occ().contains_key(t)),
            forall|t: GridPosition|
                #[trigger] self.black.occ().contains_key(t) ==> self.occ()[t]
                    == self.black.occ()[t],
            forall|t: GridPosition|
                #[trigger] self.white.occ().contains_key(t) ==> self.occ()[t]
                    == self.white.occ()[t],
            forall|t: GridPosition|
                #[trigger] self.occ().contains_key(t) ==> self.occ()[t].position == t,
            forall|t: GridPosition|
                #[trigger] self.occ().contains_key(t) ==> (self.occ()[t].color
                    == PieceColor::Black <==> self.black.occ().contains_key(t)),
            forall|t: GridPosition|
                #[trigger] self.occ().contains_key(t) ==> (self.occ()[t].color
                    == PieceColor::White <==> self.white.occ().contains_key(t)),
    {
        lemma_occ_of_props(self.black.pieces@);
        lemma_occ_of_props(self.white.pieces@);
        assert forall|t: GridPosition| #[trigger]
            self.black.occ().contains_key(t) implies self.black.occ()[t].color
            == PieceColor::Black by {
            let i = choose|i: int|
                0 <= i < self.black.pieces@.len() && (#[trigger] self.black.pieces@[i]).position
                    == t;
            assert(self.black.occ()[t] == self.black.pieces@[i]);
        }
        assert forall|t: GridPosition| #[trigger]
            self.white.occ().contains_key(t) implies self.white.occ()[t].color
            == PieceColor::White by {
            let i = choose|i: int|
                0 <= i < self.white.pieces@.len() && (#[trigger] self.white.pieces@[i]).position
                    == t;
            assert(self.white.occ()[t] == self.white.pieces@[i]);
        }
    }

    /// The observed initial configuration: White's reduced back rank on
    /// rank 3, Black with a rook and the king in the far corner.
    pub fn new() -> (r: Players)
        ensures
            r.wf(),
            r.black.king_position == (GridPosition { x: 7, y: 7 }),
            r.white.king_position == (GridPosition { x: 4, y: 2 }),
            r.black.pieces@ == seq![
                (Piece {
                    kind: PieceKind::King,
                    color: PieceColor::Black,
                    position: GridPosition { x: 7, y: 7 },
                }),
                (Piece {
                    kind: PieceKind::Rook,
                    color: PieceColor::Black,
                    position: GridPosition { x: 3, y: 3 },
                }),
            ],
            r.white.pieces@ == seq![
                (Piece {
                    kind: PieceKind::King,
                    color: PieceColor::White,
                    position: GridPosition { x: 4, y: 2 },
                }),
                (Piece {
                    kind: PieceKind::Rook,
                    color: PieceColor::White,
                    position: GridPosition { x: 0, y: 2 },
                }),
                (Piece {
                    kind: PieceKind::Bishop,
                    color: PieceColor::White,
                    position: GridPosition { x: 1, y: 2 },
                }),
                (Piece {
                    kind: PieceKind::Pawn,
                    color: PieceColor::White,
                    position: GridPosition { x: 2, y: 2 },
                }),
                (Piece {
                    kind: PieceKind::Knight,
                    color: PieceColor::White,
                    position: GridPosition { x: 3, y: 2 },
                }),
                (Piece {
                    kind: PieceKind::Queen,
                    color: PieceColor::White,
                    position: GridPosition { x: 5, y: 2 },
                }),
            ],
    {
        let mut white = Player::new(GridPosition { x: 4, y: 2 }, PieceColor::White);
        let mut white_rest: Vec<Piece> = Vec::new();
        white_rest.push(
            Piece {
                kind: PieceKind::Rook,
                color: PieceColor::White,
                position: GridPosition { x: 0, y: 2 },
            },
        );
        white_rest.push(
            Piece {
                kind: PieceKind::Bishop,
                color: PieceColor::White,
                position: GridPosition { x: 1, y: 2 },
            },
        );
        white_rest.push(
            Piece {
                kind: PieceKind::Pawn,
                color: PieceColor::White,
                position: GridPosition { x: 2, y: 2 },
            },
        );
        white_rest.push(
            Piece {
                kind: PieceKind::Knight,
                color: PieceColor::White,
                position: GridPosition { x: 3, y: 2 },
            },
        );
        white_rest.push(
            Piece {
                kind: PieceKind::Queen,
                color: PieceColor::White,
                position: GridPosition { x: 5, y: 2 },
            },
        );
        white.append_pieces(white_rest);
        let mut black = Player::new(GridPosition { x: 7, y: 7 }, PieceColor::Black);
        let mut black_rest: Vec<Piece> = Vec::new();
        black_rest.push(
            Piece {
                kind: PieceKind::Rook,
                color: PieceColor::Black,
                position: GridPosition { x: 3, y: 3 },
            },
        );
        black.append_pieces(black_rest);
        let r = Players { black, white };
        proof {
            r.black.lemma_king();
            r.white.lemma_king();
            lemma_occ_of_props(r.black.pieces@);
            lemma_occ_of_props(r.white.pieces@);
            assert forall|t: GridPosition|
                !(#[trigger] r.black.occ().contains_key(t) && #[trigger] r.white.occ().contains_key(
                    t,
                )) by {
                if r.black.occ().contains_key(t) && r.white.occ().contains_key(t) {
                    let i = choose|i: int|
                        0 <= i < r.black.pieces@.len() && (#[trigger] r.black.pieces@[i]).position
                            == t;
                    let j = choose|j: int|
                        0 <= j < r.white.pieces@.len() && (#[trigger] r.white.pieces@[j]).position
                            == t;
                }
            }
        }
        r
    }

    /// Builds the pair from two rosters supplied by the caller, keeping
    /// the engine layout-agnostic.
    pub fn with_sides(black: Player, white: Player) -> (r: Players)
        requires
            black.wf(),
            white.wf(),
            black.color == PieceColor::Black,
            white.color == PieceColor::White,
            forall|t: GridPosition|
                #![trigger black.occ().contains_key(t)]
                #![trigger white.occ().contains_key(t)]
                !(black.occ().contains_key(t) && white.occ().contains_key(t)),
        ensures
            r.wf(),
            r.black == black,
            r.white == white,
    {
        Players { black, white }
    }

    /// The cached king square of the given color.
    pub fn king_position(&self, color: PieceColor) -> (r: GridPosition)
        ensures
            r == self.king_of(color),
    {
        match color {
            PieceColor::Black => self.black.king_position,
            PieceColor::White => self.white.king_position,
        }
    }

    /// The piece of either side standing on `position`, if any.
    pub fn piece_at(&self, position: GridPosition) -> (r: Option<Piece>)
        requires
            self.wf(),
        ensures
            r is Some <==> self.occ().contains_key(position),
            r matches Some(p) ==> p == self.occ()[position],
    {
        proof {
            lemma_occ_of_props(self.black.pieces@);
            lemma_occ_of_props(self.white.pieces@);
        }
        match find_index(&self.black.pieces, position) {
            Some(i) => Some(self.black.pieces[i]),
            None => {
                match find_index(&self.white.pieces, position) {
                    Some(i) => Some(self.white.pieces[i]),
                    None => None,
                }
            },
        }
    }

    /// Removes and returns the piece of either side standing on
    /// `position`, if any.  Kings are never removed: no king capture is
    /// modelled, so callers may not name a king's square.
    pub fn remove_piece_at(&mut self, position: GridPosition) -> (r: Option<Piece>)
        requires
            old(self).wf(),
            old(self).occ().contains_key(position) ==> old(self).occ()[position].kind
                != PieceKind::King,
        ensures
            final(self).wf(),
            final(self).black.occ() == old(self).black.occ().remove(position),
            final(self).white.occ() == old(self).white.occ().remove(position),
            final(self).black.king_position == old(self).black.king_position,
            final(self).white.king_position == old(self).white.king_position,
            final(self).occ() == old(self).occ().remove(position),
            r is Some <==> old(self).occ().contains_key(position),
            r matches Some(p) ==> p == old(self).occ()[position],
    {
        proof {
            self.black.lemma_king();
            self.white.lemma_king();
            self.lemma_occ();
            assert(position != self.black.king_position);
            assert(position != self.white.king_position);
        }
        let ghost before = *self;
        let first = self.black.remove_piece_at(position);
        let r = match first {
            Some(p) => Some(p),
            None => self.white.remove_piece_at(position),
        };
        proof {
            if first is Some {
                assert(self.white.occ() =~= before.white.occ().remove(position));
            }
            assert(self.occ() =~= before.occ().remove(position));
        }
        r
    }

    /// Executes a requested move: the check-safety filter and the commit.
    /// `snapshot` must be a fresh snapshot of the current position.  The
    /// move of whatever sits at `from` is rejected with `InvalidOrigin`
    /// when `from` is empty, with `Illegal` when `to` is not pseudo-legal,
    /// and with `Unsafe` when simulating the move on the snapshot leaves
    /// the mover's cached king square attacked by the opposite color (or,
    /// for a king move, leaves the destination attacked).  A rejected move
    /// changes nothing.  On acceptance, and only then, the whole commit
    /// happens: any captured piece leaves the opponent's roster, the mover
    /// stands at `to`, and a moved king's cached square is updated.
    pub fn move_piece(&mut self, snapshot: BoardState, from: GridPosition, to: GridPosition) -> (r:
        Result<(), MoveError>)
        requires
            old(self).wf(),
            snapshot.wf(),
            snapshot@.occ == old(self).occ(),
            old(self).occ().contains_key(to) ==> old(self).occ()[to].kind != PieceKind::King,
        ensures
            final(self).wf(),
            r == move_verdict(
                snapshot@,
                old(self).black.king_position,
                old(self).white.king_position,
                from,
                to,
            ),
            r is Err ==> *final(self) == *old(self),
            r is Ok ==> ({
                let piece = old(self).occ()[from];
                let mover = piece.color;
                &&& final(self).occ_of_color(mover) == roster_after_move(
                    old(self).occ_of_color(mover),
                    piece,
                    from,
                    to,
                )
                &&& final(self).occ_of_color(opposite(mover)) == enemy_after_move(
                    old(self).occ_of_color(opposite(mover)),
                    to,
                )
                &&& final(self).king_of(mover) == king_after_move(
                    old(self).king_of(mover),
                    piece,
                    to,
                )
                &&& final(self).king_of(opposite(mover)) == old(self).king_of(opposite(mover))
                &&& final(self).occ() == apply_move_occ(old(self).occ(), from, to)
            }),
    {
        let mut snapshot = snapshot;
        let ghost bm0 = snapshot@;
        proof {
            self.lemma_occ();
        }
        let piece = match self.piece_at(from) {
            None => {
                return Err(MoveError::InvalidOrigin);
            },
            Some(p) => p,
        };
        let king_sq = self.king_position(piece.color);
        let moves = piece.pseudo_moveset(&snapshot);
        if !contains_position(&moves, to) {
            return Err(MoveError::Illegal);
        }
        proof {
            lemma_pseudo_dest_in_bounds(bm0, piece, to);
            lemma_no_self_capture(bm0, piece, to);
            lemma_pseudo_dest_not_origin(bm0, piece, to);
        }
        let _ = snapshot.move_piece(from, to);
        let ghost bm1 = snapshot@;
        proof {
            assert(bm1 == (BoardModel {
                occ: apply_move_occ(bm0.occ, piece.position, to),
                width: bm0.width,
                height: bm0.height,
            }));
        }
        let atks = snapshot.attack_map(piece.color.other());
        let king_hit = contains_position(&atks, king_sq);
        let dest_hit = if matches!(piece.kind, PieceKind::King) {
            contains_position(&atks, to)
        } else {
            false
        };
        if king_hit || dest_hit {
            return Err(MoveError::Unsafe);
        }
        let ghost before = *self;
        proof {
            self.black.lemma_king();
            self.white.lemma_king();
        }
        match piece.color {
            PieceColor::Black => {
                let _ = self.white.remove_piece_at(to);
                self.black.relocate(from, to);
            },
            PieceColor::White => {
                let _ = self.black.remove_piece_at(to);
                self.white.relocate(from, to);
            },
        }
        proof {
            lemma_occ_of_props(self.black.pieces@);
            lemma_occ_of_props(self.white.pieces@);
            assert forall|t: GridPosition|
                !(#[trigger] self.black.occ().contains_key(t)
                    && #[trigger] self.white.occ().contains_key(t)) by {
                if self.black.occ().contains_key(t) && self.white.occ().contains_key(t) {
                    if t != to && t != from {
                        assert(before.black.occ().contains_key(t));
                        assert(before.white.occ().contains_key(t));
                    }
                }
            }
            assert(self.occ() =~= apply_move_occ(before.occ(), from, to));
        }
        Ok(())
    }

    /// Both sides' pieces as one list; its occupancy is the combined
    /// occupancy of the two rosters.
    pub fn pieces(&self) -> (r: Vec<Piece>)
        requires
            self.wf(),
        ensures
            r@ == self.black.pieces@ + self.white.pieces@,
            distinct_positions(r@),
            occ_of(r@) == self.occ(),
    {
        proof {
            lemma_occ_of_props(self.black.pieces@);
            lemma_occ_of_props(self.white.pieces@);
            assert forall|i: int, j: int|
                0 <= i < self.black.pieces@.len() && 0 <= j
                    < self.white.pieces@.len() implies (#[trigger] self.black.pieces@[i]).position
                != (#[trigger] self.white.pieces@[j]).position by {
                if self.black.pieces@[i].position == self.white.pieces@[j].position {
                    assert(self.black.occ().contains_key(self.black.pieces@[i].position));
                    assert(self.white.occ().contains_key(self.white.pieces@[j].position));
                }
            }
            lemma_occ_of_concat(self.black.pieces@, self.white.pieces@);
        }
        let mut r = copy_vec(&self.black.pieces);
        let mut w = copy_vec(&self.white.pieces);
        r.append(&mut w);
        r
    }
}

} // verus!
