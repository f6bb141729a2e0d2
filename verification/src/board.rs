//! The board: grid squares and position snapshots.

pub mod laws;
pub mod model;
pub mod piece;
pub mod player;

use vstd::prelude::*;
use vstd::string::StringExecFns;

use crate::board::laws::lemma_pseudo_dest_in_bounds;
use crate::board::model::{
    apply_move_occ, attacked, distinct_positions, enemy_after_move, in_bounds_model,
    is_pseudo_dest, lemma_occ_of_props, lemma_occ_of_push, lemma_occ_of_swap_remove,
    move_is_unsafe, move_verdict, occ_of, opposite, roster_after_move, BoardModel,
};
use crate::board::piece::{MoveError, Piece, PieceColor, PieceKind};
use crate::board::player::Players;

verus! {

broadcast use vstd::seq_lib::lemma_seq_contains_after_push;

/// A square of the board grid: `x` is the file index, `y` the rank index.
/// A valid square of a `width x height` board satisfies `x < width` and
/// `y < height`; bounds are carried by the snapshot, not by the square.
#[derive(Clone, Copy, Debug, Default, PartialEq, Eq, Structural, Hash)]
pub struct GridPosition {
    pub x: u16,
    pub y: u16,
}

impl GridPosition {
    /// Adds a signed delta to both axes.  Fails closed: the result is
    /// `None` whenever either axis would leave the representable
    /// (non-negative, below the numeric ceiling) range.  Board bounds are
    /// not checked here; that is the snapshot's responsibility.
    pub fn try_add(&self, dx: i32, dy: i32) -> (r: Option<GridPosition>)
        ensures
            r is Some <==> (0 <= self.x + dx < u16::MAX && 0 <= self.y + dy < u16::MAX),
            r matches Some(p) ==> p.x == self.x + dx && p.y == self.y + dy,
    {
        let x: i64 = self.x as i64 + dx as i64;
        let y: i64 = self.y as i64 + dy as i64;
        if 0 <= x && x < u16::MAX as i64 && 0 <= y && y < u16::MAX as i64 {
            Some(GridPosition { x: x as u16, y: y as u16 })
        } else {
            None
        }
    }
}

impl From<(u16, u16)> for GridPosition {
    /// Builds a square from a `(file, rank)` pair.
    fn from(value: (u16, u16)) -> GridPosition {
        GridPosition { x: value.0, y: value.1 }
    }
}

impl vstd::std_specs::convert::FromSpecImpl<(u16, u16)> for GridPosition {
    open spec fn obeys_from_spec() -> bool {
        true
    }

    open spec fn from_spec(value: (u16, u16)) -> GridPosition {
        GridPosition { x: value.0, y: value.1 }
    }
}

/// The letter of one bijective base-26 digit of a file index: `A` for 0
/// through `Z` for 25.
pub open spec fn file_letter(d: int) -> char {
    ((65 + d) as u8) as char
}

/// The bijective base-26 letter sequence of a file index:
/// A, B, ..., Z, AA, AB, ...
pub open spec fn file_label(n: int) -> Seq<char>
    decreases n,
{
    if n < 26 {
        seq![file_letter(n)]
    } else {
        file_label(n / 26 - 1).push(file_letter(n % 26))
    }
}

/// One decimal digit as a character.
pub open spec fn digit_char(d: int) -> char {
    ((48 + d) as u8) as char
}

/// The decimal digit sequence of a non-negative number.
pub open spec fn decimal_label(n: int) -> Seq<char>
    decreases n,
{
    if n < 10 {
        seq![digit_char(n)]
    } else {
        decimal_label(n / 10).push(digit_char(n % 10))
    }
}

/// The human-readable label of a square: base-26 letters for the file,
/// then the 1-based rank number.
pub open spec fn label_spec(p: GridPosition) -> Seq<char> {
    file_label(p.x as int) + decimal_label(p.y as int + 1)
}

impl GridPosition {
    /// Renders the square's label: the file as a base-26 letter sequence
    /// (A, B, ..., Z, AA, AB, ...) and the rank as a 1-based number.  The
    /// label is used for diagnostic identity, so it is exact.
    pub fn label(&self) -> (r: String)
        ensures
            r@ == label_spec(*self),
    {
        let mut s = String::new();
        push_file_label(&mut s, self.x);
        push_decimal_label(&mut s, self.y as u32 + 1);
        proof {
            assert(s@ =~= label_spec(*self));
        }
        s
    }
}

/// Appends the base-26 letter sequence of a file index.
fn push_file_label(s: &mut String, n: u16)
    ensures
        final(s)@ == old(s)@ + file_label(n as int),
    decreases n,
{
    if n >= 26 {
        push_file_label(s, n / 26 - 1);
    }
    push_letter(s, (n % 26) as u8);
    proof {
        assert(s@ =~= old(s)@ + file_label(n as int));
    }
}

/// Appends the decimal digit sequence of a number.
fn push_decimal_label(s: &mut String, n: u32)
    ensures
        final(s)@ == old(s)@ + decimal_label(n as int),
    decreases n,
{
    if n >= 10 {
        push_decimal_label(s, n / 10);
    }
    push_digit(s, (n % 10) as u8);
    proof {
        assert(s@ =~= old(s)@ + decimal_label(n as int));
    }
}

/// Appends one file letter.
fn push_letter(s: &mut String, d: u8)
    requires
        d < 26,
    ensures
        final(s)@ == old(s)@ + seq![file_letter(d as int)],
{
    proof {
        reveal_strlit("A");
        reveal_strlit("B");
        reveal_strlit("C");
        reveal_strlit("D");
        reveal_strlit("E");
        reveal_strlit("F");
        reveal_strlit("G");
        reveal_strlit("H");
        reveal_strlit("I");
        reveal_strlit("J");
        reveal_strlit("K");
        reveal_strlit("L");
        reveal_strlit("M");
        reveal_strlit("N");
        reveal_strlit("O");
        reveal_strlit("P");
        reveal_strlit("Q");
        reveal_strlit("R");
        reveal_strlit("S");
        reveal_strlit("T");
        reveal_strlit("U");
        reveal_strlit("V");
        reveal_strlit("W");
        reveal_strlit("X");
        reveal_strlit("Y");
        reveal_strlit("Z");
    }
    match d {
        0 => s.append("A"),
        1 => s.append("B"),
        2 => s.append("C"),
        3 => s.append("D"),
        4 => s.append("E"),
        5 => s.append("F"),
        6 => s.append("G"),
        7 => s.append("H"),
        8 => s.append("I"),
        9 => s.append("J"),
        10 => s.append("K"),
        11 => s.append("L"),
        12 => s.append("M"),
        13 => s.append("N"),
        14 => s.append("O"),
        15 => s.append("P"),
        16 => s.append("Q"),
        17 => s.append("R"),
        18 => s.append("S"),
        19 => s.append("T"),
        20 => s.append("U"),
        21 => s.append("V"),
        22 => s.append("W"),
        23 => s.append("X"),
        24 => s.append("Y"),
        _ => s.append("Z"),
    }
    proof {
        assert(s@ =~= old(s)@ + seq![file_letter(d as int)]);
    }
}

/// Appends one decimal digit.
fn push_digit(s: &mut String, d: u8)
    requires
        d < 10,
    ensures
        final(s)@ == old(s)@ + seq![digit_char(d as int)],
{
    proof {
        reveal_strlit("0");
        reveal_strlit("1");
        reveal_strlit("2");
        reveal_strlit("3");
        reveal_strlit("4");
        reveal_strlit("5");
        reveal_strlit("6");
        reveal_strlit("7");
        reveal_strlit("8");
        reveal_strlit("9");
    }
    match d {
        0 => s.append("0"),
        1 => s.append("1"),
        2 => s.append("2"),
        3 => s.append("3"),
        4 => s.append("4"),
        5 => s.append("5"),
        6 => s.append("6"),
        7 => s.append("7"),
        8 => s.append("8"),
        _ => s.append("9"),
    }
    proof {
        assert(s@ =~= old(s)@ + seq![digit_char(d as int)]);
    }
}

/// Which checks `BoardState::query_square` performs.
#[derive(Clone, Copy, Debug, PartialEq, Eq, Structural)]
pub struct SquareQueryFlags {
    pub in_bounds: bool,
}

/// A point-in-time copy of board occupancy, used for queries and for
/// simulation without mutating live state.  It carries the board bounds and
/// a lazily computed attack-set cache per color; any mutation invalidates
/// the caches.
pub struct BoardState {
    pub pieces: Vec<Piece>,
    pub width: u16,
    pub height: u16,
    pub atk_black: Option<Vec<GridPosition>>,
    pub atk_white: Option<Vec<GridPosition>>,
}

impl View for BoardState {
    type V = BoardModel;

    open spec fn view(&self) -> BoardModel {
        BoardModel {
            occ: occ_of(self.pieces@),
            width: self.width as int,
            height: self.height as int,
        }
    }
}

impl BoardState {
    /// The sequence of pieces the snapshot holds.
    pub open spec fn pieces_seq(self) -> Seq<Piece> {
        self.pieces@
    }

    /// The cached attack set for a color, if one is populated.
    pub open spec fn cache_of(self, color: PieceColor) -> Option<Vec<GridPosition>> {
        match color {
            PieceColor::Black => self.atk_black,
            PieceColor::White => self.atk_white,
        }
    }

    /// A populated cache holds exactly the color's attack set.
    pub open spec fn cache_wf(self, color: PieceColor) -> bool {
        self.cache_of(color) matches Some(v) ==> forall|t: GridPosition| #[trigger]
            v@.contains(t) <==> attacked(self@, color, t)
    }

    /// Well-formedness: no two pieces share a square, every occupied square
    /// lies in bounds, and any populated attack cache is accurate.
    pub open spec fn wf(self) -> bool {
        &&& distinct_positions(self.pieces@)
        &&& forall|t: GridPosition|
            #[trigger] self@.occ.contains_key(t) ==> in_bounds_model(self@, t)
        &&& self.cache_wf(PieceColor::Black)
        &&& self.cache_wf(PieceColor::White)
    }

    /// Builds a snapshot from a plain piece list and the board bounds.  The
    /// attack caches start empty.
    pub fn from_pieces(pieces: Vec<Piece>, width: u16, height: u16) -> (r: BoardState)
        requires
            distinct_positions(pieces@),
            forall|i: int|
                0 <= i < pieces@.len() ==> (#[trigger] pieces@[i]).position.x < width
                    && pieces@[i].position.y < height,
        ensures
            r.wf(),
            r@.occ == occ_of(pieces@),
            r@.width == width,
            r@.height == height,
            r.cache_of(PieceColor::Black) is None,
            r.cache_of(PieceColor::White) is None,
    {
        proof {
            lemma_occ_of_props(pieces@);
        }
        BoardState { pieces, width, height, atk_black: None, atk_white: None }
    }

    /// True iff the square lies inside this snapshot's bounds.
    pub fn in_bounds(&self, pos: GridPosition) -> (r: bool)
        ensures
            r == in_bounds_model(self@, pos),
    {
        pos.x < self.width && pos.y < self.height
    }

    /// Evaluates the requested checks on a square; with no check requested
    /// the answer is `false`.
    pub fn query_square(&self, pos: GridPosition, flags: SquareQueryFlags) -> (r: bool)
        ensures
            r == (flags.in_bounds && in_bounds_model(self@, pos)),
    {
        if flags.in_bounds {
            self.in_bounds(pos)
        } else {
            false
        }
    }

    /// Read-only occupancy query: the piece standing on `pos`, if any.
    pub fn piece_at(&self, pos: GridPosition) -> (r: Option<Piece>)
        requires
            self.wf(),
        ensures
            r is Some <==> self@.occ.contains_key(pos),
            r matches Some(p) ==> p == self@.occ[pos],
    {
        proof {
            lemma_occ_of_props(self.pieces@);
        }
        match find_index(&self.pieces, pos) {
            Some(i) => Some(self.pieces[i]),
            None => None,
        }
    }

    /// Moves whatever piece sits at `from` to `to`, unchecked: the raw
    /// simulation primitive.  With no piece at `from` nothing changes.
    /// Otherwise any occupant of `to` is removed and returned as captured,
    /// the moved piece stands at `to` with its position updated, and the
    /// attack caches are invalidated.  No legality checking happens here.
    pub fn move_piece(&mut self, from: GridPosition, to: GridPosition) -> (captured: Option<Piece>)
        requires
            old(self).wf(),
            old(self)@.occ.contains_key(from) ==> in_bounds_model(old(self)@, to),
        ensures
            final(self).wf(),
            final(self)@.occ == apply_move_occ(old(self)@.occ, from, to),
            final(self)@.width == old(self)@.width,
            final(self)@.height == old(self)@.height,
            captured is Some <==> (old(self)@.occ.contains_key(from) && from != to && old(
                self,
            )@.occ.contains_key(to)),
            captured matches Some(p) ==> p == old(self)@.occ[to],
            !old(self)@.occ.contains_key(from) ==> *final(self) == *old(self),
            old(self)@.occ.contains_key(from) ==> final(self).cache_of(PieceColor::Black) is None
                && final(self).cache_of(PieceColor::White) is None,
    {
        proof {
            lemma_occ_of_props(self.pieces@);
        }
        let idx_from = match find_index(&self.pieces, from) {
            None => {
                return None;
            },
            Some(i) => i,
        };
        let moved = self.pieces[idx_from];
        let ghost s0 = self.pieces@;
        proof {
            lemma_occ_of_swap_remove(s0, idx_from as int);
        }
        let _ = self.pieces.swap_remove(idx_from);
        let ghost s1 = self.pieces@;
        proof {
            lemma_occ_of_props(s1);
        }
        let captured = match find_index(&self.pieces, to) {
            Some(j) => {
                proof {
                    lemma_occ_of_swap_remove(s1, j as int);
                }
                Some(self.pieces.swap_remove(j))
            },
            None => None,
        };
        let ghost s2 = self.pieces@;
        let relocated = Piece { position: to, ..moved };
        proof {
            lemma_occ_of_props(s2);
            lemma_occ_of_push(s2, relocated);
        }
        self.pieces.push(relocated);
        self.atk_black = None;
        self.atk_white = None;
        proof {
            let occ0 = occ_of(s0);
            assert(occ_of(self.pieces@) =~= apply_move_occ(occ0, from, to));
            lemma_occ_of_props(self.pieces@);
        }
        captured
    }
}

impl BoardState {
    /// The attack map of a color: every square some piece of that color
    /// could pseudo-legally move to.  Memoized per color: the first call
    /// populates that color's cache, later calls return the cached set;
    /// the other color's cache is left alone.
    pub fn attack_map(&mut self, color: PieceColor) -> (atks: Vec<GridPosition>)
        requires
            old(self).wf(),
        ensures
            final(self).wf(),
            final(self)@ == old(self)@,
            final(self).pieces_seq() == old(self).pieces_seq(),
            forall|t: GridPosition| #[trigger] atks@.contains(t) <==> attacked(old(self)@, color, t),
            final(self).cache_of(color) matches Some(v) && v@ == atks@,
            final(self).cache_of(opposite(color)) == old(self).cache_of(opposite(color)),
    {
        match color {
            PieceColor::Black => {
                match &self.atk_black {
                    Some(v) => {
                        return copy_vec(v);
                    },
                    None => {},
                }
            },
            PieceColor::White => {
                match &self.atk_white {
                    Some(v) => {
                        return copy_vec(v);
                    },
                    None => {},
                }
            },
        }
        let atks = compute_attacks(self, color);
        let stored = copy_vec(&atks);
        match color {
            PieceColor::Black => {
                self.atk_black = Some(stored);
            },
            PieceColor::White => {
                self.atk_white = Some(stored);
            },
        }
        proof {
            assert(self@ == old(self)@);
            assert(distinct_positions(self.pieces@));
            assert(self.cache_wf(PieceColor::Black));
            assert(self.cache_wf(PieceColor::White));
        }
        atks
    }
}

/// A plain copy of a vector of plain values.
pub(crate) fn copy_vec<T: Copy>(v: &Vec<T>) -> (r: Vec<T>)
    ensures
        r@ == v@,
{
    let mut r: Vec<T> = Vec::new();
    let mut i: usize = 0;
    while i < v.len()
        invariant
            i <= v@.len(),
            r@ == v@.subrange(0, i as int),
        decreases v@.len() - i,
    {
        r.push(v[i]);
        i = i + 1;
        proof {
            assert(r@ =~= v@.subrange(0, i as int));
        }
    }
    proof {
        assert(r@ =~= v@);
    }
    r
}

/// Computes the attack set of `color` from scratch: the union, over every
/// piece of that color in the snapshot, of its pseudo-legal destinations.
fn compute_attacks(board: &BoardState, color: PieceColor) -> (atks: Vec<GridPosition>)
    requires
        board.wf(),
    ensures
        forall|t: GridPosition| #[trigger] atks@.contains(t) <==> attacked(board@, color, t),
{
    let ghost bm = board@;
    let mut atks: Vec<GridPosition> = Vec::new();
    let mut i: usize = 0;
    while i < board.pieces.len()
        invariant
            board.wf(),
            bm == board@,
            i <= board.pieces@.len(),
            forall|t: GridPosition|
                #[trigger] atks@.contains(t) <==> exists|j: int|
                    0 <= j < i && (#[trigger] board.pieces@[j]).color == color && is_pseudo_dest(
                        bm,
                        board.pieces@[j],
                        t,
                    ),
        decreases board.pieces@.len() - i,
    {
        let p = board.pieces[i];
        if p.color == color {
            proof {
                lemma_occ_of_props(board.pieces@);
                assert(bm.occ.contains_key(board.pieces@[i as int].position));
                assert(in_bounds_model(bm, p.position));
            }
            let mut dests = p.pseudo_moveset(board);
            let ghost before = atks@;
            let ghost added = dests@;
            atks.append(&mut dests);
            proof {
                assert forall|t: GridPosition| #[trigger]
                    atks@.contains(t) <==> before.contains(t) || added.contains(t) by {
                    if atks@.contains(t) {
                        let idx = choose|idx: int| 0 <= idx < atks@.len() && atks@[idx] == t;
                        if idx < before.len() {
                            assert(before[idx] == t);
                        } else {
                            assert(added[idx - before.len()] == t);
                        }
                    }
                    if before.contains(t) {
                        let idx = choose|idx: int| 0 <= idx < before.len() && before[idx] == t;
                        assert(atks@[idx] == t);
                    }
                    if added.contains(t) {
                        let idx = choose|idx: int| 0 <= idx < added.len() && added[idx] == t;
                        assert(atks@[before.len() + idx] == t);
                    }
                }
            }
        }
        i = i + 1;
        proof {
            assert forall|t: GridPosition| #[trigger]
                atks@.contains(t) <==> exists|j: int|
                    0 <= j < i && (#[trigger] board.pieces@[j]).color == color && is_pseudo_dest(
                        bm,
                        board.pieces@[j],
                        t,
                    ) by {
                if exists|j: int|
                    0 <= j < i && (#[trigger] board.pieces@[j]).color == color && is_pseudo_dest(
                        bm,
                        board.pieces@[j],
                        t,
                    ) {
                    let j = choose|j: int|
                        0 <= j < i && (#[trigger] board.pieces@[j]).color == color
                            && is_pseudo_dest(bm, board.pieces@[j], t);
                }
            }
        }
    }
    proof {
        lemma_occ_of_props(board.pieces@);
        assert forall|t: GridPosition| #[trigger]
            atks@.contains(t) <==> attacked(bm, color, t) by {
            if atks@.contains(t) {
                let j = choose|j: int|
                    0 <= j < board.pieces@.len() && (#[trigger] board.pieces@[j]).color == color
                        && is_pseudo_dest(bm, board.pieces@[j], t);
                assert(bm.occ.contains_key(board.pieces@[j].position));
                assert(bm.occ[board.pieces@[j].position] == board.pieces@[j]);
            }
            if attacked(bm, color, t) {
                let sq = choose|sq: GridPosition|
                    {
                        &&& #[trigger] bm.occ.contains_key(sq)
                        &&& bm.occ[sq].color == color
                        &&& is_pseudo_dest(bm, bm.occ[sq], t)
                    };
                let j = choose|j: int|
                    0 <= j < board.pieces@.len() && (#[trigger] board.pieces@[j]).position == sq;
                assert(bm.occ[sq] == board.pieces@[j]);
            }
        }
    }
    atks
}

/// The match state: the two rosters, the board bounds, and the square the
/// surrounding interaction layer has selected, if any.
pub struct Board {
    pub width: u16,
    pub height: u16,
    pub selected_piece_pos: Option<GridPosition>,
    pub players: Players,
}

impl Board {
    /// The mathematical model of the current position.
    pub open spec fn model(self) -> BoardModel {
        BoardModel {
            occ: self.players.occ(),
            width: self.width as int,
            height: self.height as int,
        }
    }

    /// Well-formedness: the rosters are well-formed and every occupied
    /// square lies inside the board bounds.
    pub open spec fn wf(self) -> bool {
        &&& self.players.wf()
        &&& forall|t: GridPosition|
            #[trigger] self.players.occ().contains_key(t) ==> in_bounds_model(self.model(), t)
    }

    /// `t` is a legal destination for `piece`: pseudo-legal, and the
    /// simulated move does not leave the mover's cached king square (nor,
    /// for a king move, the destination) attacked.
    pub open spec fn legal_dest(self, piece: Piece, t: GridPosition) -> bool {
        is_pseudo_dest(self.model(), piece, t) && !move_is_unsafe(
            self.model(),
            piece,
            t,
            self.players.king_of(piece.color),
        )
    }

    /// An 8 by 8 board with the observed initial configuration and no
    /// selection.
    pub fn new() -> (r: Board)
        ensures
            r.wf(),
            r.width == 8 && r.height == 8,
            r.selected_piece_pos is None,
            r.players.black.king_position == (GridPosition { x: 7, y: 7 }),
            r.players.white.king_position == (GridPosition { x: 4, y: 2 }),
            r.players.black.pieces@ == seq![
                (Piece {
                    kind: PieceKind::King,
                    color: PieceColor::Black,
                    position: GridPosition { x: 7, y: 7 },
                }),
                (Piece {
                    kind: PieceKind::Rook,
                    color: PieceColor::Black,
                    position: GridPosition { x: 3, y: 3 },
                }),
            ],
            r.players.white.pieces@ == seq![
                (Piece {
                    kind: PieceKind::King,
                    color: PieceColor::White,
                    position: GridPosition { x: 4, y: 2 },
                }),
                (Piece {
                    kind: PieceKind::Rook,
                    color: PieceColor::White,
                    position: GridPosition { x: 0, y: 2 },
                }),
                (Piece {
                    kind: PieceKind::Bishop,
                    color: PieceColor::White,
                    position: GridPosition { x: 1, y: 2 },
                }),
                (Piece {
                    kind: PieceKind::Pawn,
                    color: PieceColor::White,
                    position: GridPosition { x: 2, y: 2 },
                }),
                (Piece {
                    kind: PieceKind::Knight,
                    color: PieceColor::White,
                    position: GridPosition { x: 3, y: 2 },
                }),
                (Piece {
                    kind: PieceKind::Queen,
                    color: PieceColor::White,
                    position: GridPosition { x: 5, y: 2 },
                }),
            ],
    {
        let players = Players::new();
        let r = Board { width: 8, height: 8, selected_piece_pos: None, players };
        proof {
            lemma_occ_of_props(r.players.black.pieces@);
            lemma_occ_of_props(r.players.white.pieces@);
            assert forall|t: GridPosition| #[trigger]
                r.players.occ().contains_key(t) implies in_bounds_model(r.model(), t) by {
                if r.players.black.occ().contains_key(t) {
                    let i = choose|i: int|
                        0 <= i < r.players.black.pieces@.len() && (
                        #[trigger] r.players.black.pieces@[i]).position == t;
                } else {
                    let i = choose|i: int|
                        0 <= i < r.players.white.pieces@.len() && (
                        #[trigger] r.players.white.pieces@[i]).position == t;
                }
            }
        }
        r
    }

    /// A board with caller-supplied bounds and rosters, keeping the engine
    /// layout-agnostic.
    pub fn with_state(width: u16, height: u16, players: Players) -> (r: Board)
        requires
            players.wf(),
            forall|t: GridPosition|
                #[trigger] players.occ().contains_key(t) ==> t.x < width && t.y < height,
        ensures
            r.wf(),
            r.width == width && r.height == height,
            r.selected_piece_pos is None,
            r.players == players,
    {
        Board { width, height, selected_piece_pos: None, players }
    }

    /// The square currently selected, if any.
    pub fn selected_piece_pos(&self) -> (r: Option<GridPosition>)
        ensures
            r == self.selected_piece_pos,
    {
        self.selected_piece_pos
    }

    /// Selects a square unconditionally; occupancy is the caller's
    /// concern.
    pub fn select_piece_at(&mut self, position: GridPosition)
        ensures
            final(self).selected_piece_pos == Some(position),
            final(self).players == old(self).players,
            final(self).width == old(self).width,
            final(self).height == old(self).height,
    {
        self.selected_piece_pos = Some(position);
    }

    /// The piece on the selected square.  The selection, when set, must
    /// name an occupied square.
    pub fn selected_piece(&self) -> (r: Option<Piece>)
        requires
            self.wf(),
            self.selected_piece_pos matches Some(p) ==> self.players.occ().contains_key(p),
        ensures
            r is Some <==> self.selected_piece_pos is Some,
            r matches Some(piece) ==> piece == self.players.occ()[self.selected_piece_pos.unwrap()],
    {
        match self.selected_piece_pos {
            Some(p) => self.players.piece_at(p),
            None => None,
        }
    }

    /// Read-only occupancy query.
    pub fn piece_at(&self, p: GridPosition) -> (r: Option<Piece>)
        requires
            self.wf(),
        ensures
            r is Some <==> self.players.occ().contains_key(p),
            r matches Some(piece) ==> piece == self.players.occ()[p],
    {
        self.players.piece_at(p)
    }

    /// A fresh snapshot of the current position.
    fn snapshot(&self) -> (r: BoardState)
        requires
            self.wf(),
        ensures
            r.wf(),
            r@ == self.model(),
            r.cache_of(PieceColor::Black) is None,
            r.cache_of(PieceColor::White) is None,
    {
        BoardState::new(self)
    }

    /// Attempts the move from `from` to `to`: clears a matching selection,
    /// then validates and, only on acceptance, commits it.  The verdict
    /// and the state change are those of `Players::move_piece`.
    pub fn try_move_piece(&mut self, from: GridPosition, to: GridPosition) -> (r: Result<
        (),
        MoveError,
    >)
        requires
            old(self).wf(),
            old(self).players.occ().contains_key(to) ==> old(self).players.occ()[to].kind
                != PieceKind::King,
        ensures
            final(self).wf(),
            final(self).width == old(self).width && final(self).height == old(self).height,
            final(self).selected_piece_pos == (if old(self).selected_piece_pos == Some(from) {
                None
            } else {
                old(self).selected_piece_pos
            }),
            r == move_verdict(
                old(self).model(),
                old(self).players.black.king_position,
                old(self).players.white.king_position,
                from,
                to,
            ),
            r is Err ==> final(self).players == old(self).players,
            r is Ok ==> final(self).players.occ() == apply_move_occ(
                old(self).players.occ(),
                from,
                to,
            ),
            r is Ok ==> ({
                let piece = old(self).players.occ()[from];
                &&& final(self).players.occ_of_color(piece.color) == roster_after_move(
                    old(self).players.occ_of_color(piece.color),
                    piece,
                    from,
                    to,
                )
                &&& final(self).players.occ_of_color(opposite(piece.color)) == enemy_after_move(
                    old(self).players.occ_of_color(opposite(piece.color)),
                    to,
                )
                &&& final(self).players.king_of(piece.color) == (if piece.kind == PieceKind::King {
                    to
                } else {
                    old(self).players.king_of(piece.color)
                })
                &&& final(self).players.king_of(opposite(piece.color)) == old(
                    self,
                ).players.king_of(opposite(piece.color))
            }),
    {
        match self.selected_piece_pos {
            Some(p) => {
                if p == from {
                    self.selected_piece_pos = None;
                }
            },
            None => {},
        }
        let snap = self.snapshot();
        let r = self.players.move_piece(snap, from, to);
        proof {
            if r is Ok {
                assert(old(self).model().occ.contains_key(from));
                let piece = old(self).model().occ[from];
                assert(is_pseudo_dest(old(self).model(), piece, to));
                lemma_pseudo_dest_in_bounds(old(self).model(), piece, to);
                assert forall|t: GridPosition| #[trigger]
                    self.players.occ().contains_key(t) implies in_bounds_model(
                    self.model(),
                    t,
                ) by {
                    if t != to {
                        assert(old(self).players.occ().contains_key(t));
                    }
                }
            }
        }
        r
    }

    /// The pseudo-legal destination set of the piece on `square`; an empty
    /// square has none.
    pub fn pseudo_legal_destinations(&self, square: GridPosition) -> (r: Vec<GridPosition>)
        requires
            self.wf(),
        ensures
            self.players.occ().contains_key(square) ==> forall|t: GridPosition|
                #[trigger] r@.contains(t) <==> is_pseudo_dest(
                    self.model(),
                    self.players.occ()[square],
                    t,
                ),
            !self.players.occ().contains_key(square) ==> r@ == Seq::<GridPosition>::empty(),
    {
        match self.players.piece_at(square) {
            Some(p) => {
                proof {
                    self.players.lemma_occ();
                }
                let snap = self.snapshot();
                p.pseudo_moveset(&snap)
            },
            None => Vec::new(),
        }
    }

    /// The legal destination set of the piece on `square`: the
    /// pseudo-legal destinations that survive the check-safety filter.
    /// Both the indicator-drawing collaborator and the commit path agree
    /// with this set.
    pub fn legal_destinations(&self, square: GridPosition) -> (r: Vec<GridPosition>)
        requires
            self.wf(),
        ensures
            self.players.occ().contains_key(square) ==> forall|t: GridPosition|
                #[trigger] r@.contains(t) <==> self.legal_dest(self.players.occ()[square], t),
            !self.players.occ().contains_key(square) ==> r@ == Seq::<GridPosition>::empty(),
    {
        let piece = match self.players.piece_at(square) {
            Some(p) => p,
            None => {
                return Vec::new();
            },
        };
        proof {
            self.players.lemma_occ();
        }
        let king_sq = self.players.king_position(piece.color);
        let moves = self.pseudo_legal_destinations(square);
        let mut r: Vec<GridPosition> = Vec::new();
        let mut i: usize = 0;
        while i < moves.len()
            invariant
                self.wf(),
                piece == self.players.occ()[square],
                self.players.occ().contains_key(square),
                piece.position == square,
                king_sq == self.players.king_of(piece.color),
                i <= moves@.len(),
                forall|t: GridPosition|
                    #[trigger] moves@.contains(t) <==> is_pseudo_dest(self.model(), piece, t),
                forall|t: GridPosition|
                    #[trigger] r@.contains(t) <==> ((exists|j: int| 0 <= j < i && moves@[j] == t)
                        && self.legal_dest(piece, t)),
            decreases moves@.len() - i,
        {
            let mov = moves[i];
            proof {
                assert(moves@.contains(mov));
                lemma_pseudo_dest_in_bounds(self.model(), piece, mov);
            }
            let mut snap = self.snapshot();
            let _ = snap.move_piece(square, mov);
            let atks = snap.attack_map(piece.color.other());
            let king_hit = contains_position(&atks, king_sq);
            let dest_hit = if matches!(piece.kind, PieceKind::King) {
                contains_position(&atks, mov)
            } else {
                false
            };
            proof {
                let after = BoardModel {
                    occ: apply_move_occ(self.model().occ, piece.position, mov),
                    width: self.model().width,
                    height: self.model().height,
                };
                assert(snap@ == after);
                assert(king_hit == attacked(after, opposite(piece.color), king_sq));
                assert(dest_hit == (piece.kind == PieceKind::King && attacked(
                    after,
                    opposite(piece.color),
                    mov,
                )));
                assert((king_hit || dest_hit) == move_is_unsafe(self.model(), piece, mov, king_sq));
            }
            if !(king_hit || dest_hit) {
                if !contains_position(&r, mov) {
                    r.push(mov);
                }
            }
            i = i + 1;
            proof {
                assert forall|t: GridPosition|
                    #[trigger] r@.contains(t) <==> ((exists|j: int| 0 <= j < i && moves@[j] == t)
                        && self.legal_dest(piece, t)) by {
                    if r@.contains(t) {
                        if t == mov {
                            assert(moves@[i - 1] == t);
                        }
                    }
                    if (exists|j: int| 0 <= j < i && moves@[j] == t) && self.legal_dest(piece, t) {
                        let j = choose|j: int| 0 <= j < i && moves@[j] == t;
                    }
                }
            }
        }
        proof {
            assert forall|t: GridPosition|
                #[trigger] r@.contains(t) <==> self.legal_dest(piece, t) by {
                if self.legal_dest(piece, t) {
                    assert(moves@.contains(t));
                    let j = choose|j: int| 0 <= j < moves@.len() && moves@[j] == t;
                }
            }
        }
        r
    }
}

impl BoardState {
    /// A fresh snapshot of the board's current position: occupancy copied
    /// from both rosters, the board's bounds, and empty attack caches.
    pub fn new(board: &Board) -> (r: BoardState)
        requires
            board.wf(),
        ensures
            r.wf(),
            r@ == board.model(),
            r.cache_of(PieceColor::Black) is None,
            r.cache_of(PieceColor::White) is None,
    {
        let pieces = board.players.pieces();
        proof {
            lemma_occ_of_props(pieces@);
            assert forall|i: int| 0 <= i < pieces@.len() implies (#[trigger] pieces@[i]).position.x
                < board.width && pieces@[i].position.y < board.height by {
                assert(occ_of(pieces@).contains_key(pieces@[i].position));
            }
        }
        BoardState::from_pieces(pieces, board.width, board.height)
    }
}

/// Whether a list of squares holds the given square.
pub(crate) fn contains_position(v: &Vec<GridPosition>, t: GridPosition) -> (r: bool)
    ensures
        r == v@.contains(t),
{
    let mut i: usize = 0;
    while i < v.len()
        invariant
            i <= v@.len(),
            forall|j: int| 0 <= j < i ==> v@[j] != t,
        decreases v@.len() - i,
    {
        if v[i] == t {
            return true;
        }
        i = i + 1;
    }
    false
}

/// The index of the piece standing on `pos`, if any.
pub(crate) fn find_index(v: &Vec<Piece>, pos: GridPosition) -> (r: Option<usize>)
    ensures
        r matches Some(i) ==> i < v@.len() && v@[i as int].position == pos,
        r is None ==> forall|j: int| 0 <= j < v@.len() ==> (#[trigger] v@[j]).position != pos,
{
    let mut i: usize = 0;
    while i < v.len()
        invariant
            i <= v@.len(),
            forall|j: int| 0 <= j < i ==> (#[trigger] v@[j]).position != pos,
        decreases v@.len() - i,
    {
        if v[i].position == pos {
            return Some(i);
        }
        i = i + 1;
    }
    None
}

} // verus!
