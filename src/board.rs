use vstd::prelude::*;

use crate::coord::{hex_len, on_axis, Coord};
use crate::piece::{abs, diagonal_multiple, piece_shape, Name, Piece, Team};

verus! {

/// Radius of the board: a cell lies on it iff `|q|, |r|, |s| <= RADIUS`.
pub const RADIUS: i32 = 5;

/// Side of the square of `(q, r)` pairs that holds the board.
pub const SIDE: usize = 11;

/// Number of entries in that square.
pub const SQUARE: usize = 121;

#[derive(Debug, Clone, Copy, PartialEq, Eq, Structural)]
pub enum GetError {
    NoPiece(Coord),
}

#[derive(Debug, Clone, Copy, PartialEq, Eq, Structural)]
pub enum MoveErrorType {
    NoPiece(GetError),
    InvalidMove(Piece),
    CollisionOnPath(Piece),
}

impl From<GetError> for MoveErrorType {
    fn from(e: GetError) -> (t: MoveErrorType) {
        MoveErrorType::NoPiece(e)
    }
}

impl vstd::std_specs::convert::FromSpecImpl<GetError> for MoveErrorType {
    open spec fn obeys_from_spec() -> bool {
        true
    }

    open spec fn from_spec(e: GetError) -> MoveErrorType {
        MoveErrorType::NoPiece(e)
    }
}

/// A rejected move, with the cells it was attempted between.
#[derive(Debug, Clone, Copy, PartialEq, Eq, Structural)]
pub struct MoveError {
    pub err_type: MoveErrorType,
    pub from: Coord,
    pub to: Coord,
}

/// `c` is one of the 91 cells of the board.
pub open spec fn on_board(c: Coord) -> bool {
    -RADIUS <= c.q <= RADIUS && -RADIUS <= c.r <= RADIUS && -RADIUS <= c.spec_s() <= RADIUS
}

/// `(q, r)` lies in the square that holds the board.
pub open spec fn in_square(c: Coord) -> bool {
    -RADIUS <= c.q <= RADIUS && -RADIUS <= c.r <= RADIUS
}

/// Position of a cell of the square in the row-major grid.
pub open spec fn cell_index(c: Coord) -> int {
    (c.r + RADIUS) * (SIDE as int) + (c.q + RADIUS)
}

/// The cell stored at position `i` of the grid.
pub open spec fn coord_at(i: int) -> Coord {
    Coord { q: (i % (SIDE as int) - RADIUS) as i32, r: (i / (SIDE as int) - RADIUS) as i32 }
}

proof fn lemma_grid_index(c: Coord)
    requires
        in_square(c),
    ensures
        0 <= cell_index(c) < SQUARE,
        coord_at(cell_index(c)) == c,
{
    let i = cell_index(c);
    let a = c.q + 5;
    let b = c.r + 5;
    assert(i == b * 11 + a);
    assert(i % 11 == a && i / 11 == b) by (nonlinear_arith)
        requires
            i == b * 11 + a,
            0 <= a < 11,
            0 <= b < 11,
    {
    }
}

proof fn lemma_grid_coord(i: int)
    requires
        0 <= i < SQUARE,
    ensures
        in_square(coord_at(i)),
        cell_index(coord_at(i)) == i,
{
    assert(0 <= i % 11 < 11 && 0 <= i / 11 < 11 && i == (i / 11) * 11 + i % 11) by (nonlinear_arith)
        requires
            0 <= i < 121,
    {
    }
}

/// Mathematical sign.
pub open spec fn sgn(x: int) -> int {
    if x > 0 {
        1
    } else if x < 0 {
        -1
    } else {
        0
    }
}

/// How a straight move with displacement `(vq, vr)` is walked: the unit step
/// `(uq, ur)` and the number of steps `n`, with `n * (uq, ur) == (vq, vr)`.
/// Along an axis the unit step is a neighbour; along a diagonal it is the short
/// diagonal. Any other displacement is a jump with no cell in between.
pub open spec fn line_walk(vq: int, vr: int) -> (int, int, int) {
    if on_axis(vq, vr) {
        (sgn(vq), sgn(vr), hex_len(vq, vr))
    } else if diagonal_multiple(vq, vr) {
        if vq == vr {
            (sgn(vq), sgn(vq), abs(vq))
        } else if vr == -2 * vq {
            (sgn(vq), -2 * sgn(vq), abs(vq))
        } else {
            (-2 * sgn(vr), sgn(vr), abs(vr))
        }
    } else {
        (vq, vr, 1)
    }
}

/// The cell `k` unit steps from `f` towards `t`.
pub open spec fn path_cell(f: Coord, t: Coord, k: int) -> Coord {
    let w = line_walk(t.q - f.q, t.r - f.r);
    Coord { q: (f.q + k * w.0) as i32, r: (f.r + k * w.1) as i32 }
}

/// Some cell strictly between `f` and `t` is occupied.
pub open spec fn path_blocked(b: Map<Coord, Piece>, f: Coord, t: Coord) -> bool {
    let n = line_walk(t.q - f.q, t.r - f.r).2;
    exists|k: int| 1 <= k < n && #[trigger] b.contains_key(path_cell(f, t, k))
}

pub open spec fn invalid(piece: Piece, from: Coord, to: Coord) -> Result<(), MoveError> {
    Err(MoveError { err_type: MoveErrorType::InvalidMove(piece), from, to })
}

/// The move pipeline without regard to check: bounds, shape, occupancy and
/// capture, then path blocking.
pub open spec fn unchecked_outcome(b: Map<Coord, Piece>, piece: Piece, from: Coord, to: Coord) -> Result<
    (),
    MoveError,
> {
    if !on_board(to) {
        invalid(piece, from, to)
    } else {
        match piece_shape(piece, from, to) {
            None => invalid(piece, from, to),
            Some(m) => {
                if (!m.capture && b.contains_key(to)) || (m.capture && b.contains_key(to)
                    && b[to].team == piece.team) || (!m._move && !b.contains_key(to)) {
                    invalid(piece, from, to)
                } else if path_blocked(b, from, to) {
                    Err(MoveError { err_type: MoveErrorType::CollisionOnPath(piece), from, to })
                } else {
                    Ok(())
                }
            },
        }
    }
}

pub open spec fn is_king_of(b: Map<Coord, Piece>, c: Coord, team: Team) -> bool {
    b.contains_key(c) && b[c] == Piece { name: Name::King, team }
}

/// The enemy piece on `pos` could capture a king of `team` on its next move.
pub open spec fn attacks(b: Map<Coord, Piece>, pos: Coord, team: Team) -> bool {
    &&& b.contains_key(pos)
    &&& b[pos].team == team.other()
    &&& exists|k: Coord| #[trigger]
        is_king_of(b, k, team) && unchecked_outcome(b, b[pos], pos, k) is Ok
}

pub open spec fn in_check(b: Map<Coord, Piece>, team: Team) -> bool {
    exists|pos: Coord| #[trigger] attacks(b, pos, team)
}

/// The position after the piece on `from` is carried to `to`, capturing
/// whatever stood there.
pub open spec fn relocated(b: Map<Coord, Piece>, from: Coord, to: Coord) -> Map<Coord, Piece> {
    b.remove(from).insert(to, b[from])
}

/// Full legality of a move: a piece must stand on `from`, the move must pass
/// the pipeline, and a team in check must leave check by it.
pub open spec fn move_outcome(b: Map<Coord, Piece>, from: Coord, to: Coord) -> Result<(), MoveError> {
    if !b.contains_key(from) {
        Err(MoveError { err_type: MoveErrorType::NoPiece(GetError::NoPiece(from)), from, to })
    } else {
        let piece = b[from];
        let r = unchecked_outcome(b, piece, from, to);
        if r is Err {
            r
        } else if in_check(b, piece.team) && in_check(relocated(b, from, to), piece.team) {
            invalid(piece, from, to)
        } else {
            Ok(())
        }
    }
}

/// `team` is in check and no move of its pieces is legal.
pub open spec fn checkmated(b: Map<Coord, Piece>, team: Team) -> bool {
    &&& in_check(b, team)
    &&& forall|from: Coord, to: Coord|
        b.contains_key(from) && b[from].team == team ==> (#[trigger] move_outcome(b, from, to)) is Err
}

/// The board: an 11 x 11 grid of `(q, r)` pairs, of which the 91 cells with
/// `|s| <= RADIUS` can hold a piece, and for each team the cells of the enemy
/// pieces that attack its king.
#[derive(Debug, Clone)]
pub struct HexBoard {
    cells: Vec<Option<Piece>>,
    white_checkers: Vec<Coord>,
    black_checkers: Vec<Coord>,
}

impl View for HexBoard {
    type V = Map<Coord, Piece>;

    /// The occupied cells and their pieces.
    closed spec fn view(&self) -> Map<Coord, Piece> {
        Map::new(
            |c: Coord| on_board(c) && self.cells@[cell_index(c)] is Some,
            |c: Coord| self.cells@[cell_index(c)]->0,
        )
    }
}

impl HexBoard {
    /// The grid has one entry per pair of the square, and only cells of the
    /// board hold pieces.
    pub closed spec fn cells_wf(&self) -> bool {
        &&& self.cells@.len() == SQUARE
        &&& forall|i: int|
            0 <= i < SQUARE && (#[trigger] self.cells@[i]) is Some ==> on_board(coord_at(i))
    }

    proof fn lemma_view_at(&self, c: Coord)
        requires
            self.cells_wf(),
            in_square(c),
        ensures
            self@.contains_key(c) <==> self.cells@[cell_index(c)] is Some,
            self@.contains_key(c) ==> self@[c] == self.cells@[cell_index(c)]->0,
    {
        lemma_grid_index(c);
    }

    /// Whether `(q, r)` lies on the board, for any pair.
    fn within_radius(q: i32, r: i32) -> (b: bool)
        ensures
            b == on_board(Coord { q, r }),
    {
        let (q, r) = (q as i64, r as i64);
        let s = -q - r;
        -5 <= q && q <= 5 && -5 <= r && r <= 5 && -5 <= s && s <= 5
    }

    /// The content of a cell of the board.
    fn cell(&self, c: Coord) -> (o: Option<Piece>)
        requires
            self.cells_wf(),
            on_board(c),
        ensures
            o == (if self@.contains_key(c) {
                Some(self@[c])
            } else {
                None
            }),
    {
        proof {
            self.lemma_view_at(c);
        }
        let i = ((c.r + RADIUS) as usize) * SIDE + ((c.q + RADIUS) as usize);
        self.cells[i]
    }

    /// Whether the cell `(q, r)` holds a piece; false off the board.
    fn occupied(&self, q: i32, r: i32) -> (b: bool)
        requires
            self.cells_wf(),
        ensures
            b == self@.contains_key(Coord { q, r }),
    {
        if Self::within_radius(q, r) {
            self.cell(Coord { q, r }).is_some()
        } else {
            false
        }
    }

    /// Whether a piece stands strictly between `f` and `t` on the straight line
    /// that joins them (a jump has no cell in between).
    fn collides(&self, f: Coord, t: Coord) -> (b: bool)
        requires
            self.cells_wf(),
            on_board(f),
            on_board(t),
        ensures
            b == path_blocked(self@, f, t),
    {
        let vq = t.q - f.q;
        let vr = t.r - f.r;
        let vs = -vq - vr;
        let sq: i32 = if vq > 0 { 1 } else if vq < 0 { -1 } else { 0 };
        let sr: i32 = if vr > 0 { 1 } else if vr < 0 { -1 } else { 0 };
        let aq: i32 = if vq < 0 { -vq } else { vq };
        let ar: i32 = if vr < 0 { -vr } else { vr };
        let as_: i32 = if vs < 0 { -vs } else { vs };
        let (uq, ur, n) = if (vq == 0 && vr != 0 && vs != 0) || (vr == 0 && vq != 0 && vs != 0) || (vs
            == 0 && vq != 0 && vr != 0) {
            let len = if aq >= ar && aq >= as_ {
                aq
            } else if ar >= as_ {
                ar
            } else {
                as_
            };
            (sq, sr, len)
        } else if !(vq == 0 && vr == 0) && (vq == vr || vr + 2 * vq == 0 || vq + 2 * vr == 0) {
            if vq == vr {
                (sq, sq, aq)
            } else if vr + 2 * vq == 0 {
                (sq, 0 - 2 * sq, aq)
            } else {
                (0 - 2 * sr, sr, ar)
            }
        } else {
            (vq, vr, 1)
        };
        assert((uq as int, ur as int, n as int) == line_walk(vq as int, vr as int));
        let mut k: i32 = 1;
        let mut cq: i32 = f.q + uq;
        let mut cr: i32 = f.r + ur;
        while k < n
            invariant
                self.cells_wf(),
                (uq as int, ur as int, n as int) == line_walk(t.q - f.q, t.r - f.r),
                -10 <= uq <= 10,
                -10 <= ur <= 10,
                n <= 10,
                -5 <= f.q <= 5,
                -5 <= f.r <= 5,
                1 <= k,
                k <= n || n <= 1,
                cq == f.q + k * uq,
                cr == f.r + k * ur,
                forall|j: int| 1 <= j < k ==> !self@.contains_key(#[trigger] path_cell(f, t, j)),
            decreases n - k,
        {
            assert(path_cell(f, t, k as int) == Coord { q: cq, r: cr });
            if self.occupied(cq, cr) {
                return true;
            }
            assert((k + 1) * uq == k * uq + uq && (k + 1) * ur == k * ur + ur) by (nonlinear_arith);
            assert(-100 <= (k + 1) * uq <= 100 && -100 <= (k + 1) * ur <= 100) by (nonlinear_arith)
                requires
                    1 <= k < n <= 10,
                    -10 <= uq <= 10,
                    -10 <= ur <= 10,
            {
            }
            k = k + 1;
            cq = cq + uq;
            cr = cr + ur;
        }
        false
    }
}

impl HexBoard {
    /// The moving pipeline for `piece` from `from` to `to`, without regard to check.
    fn unchecked_can_move(&self, piece: &Piece, from: Coord, to: Coord) -> (r: Result<(), MoveError>)
        requires
            self.cells_wf(),
            on_board(from),
        ensures
            r == unchecked_outcome(self@, *piece, from, to),
    {
        if !Self::within_radius(to.q, to.r) {
            return Err(MoveError { err_type: MoveErrorType::InvalidMove(*piece), from, to });
        }
        let possible = match piece.verify_move(from, to) {
            Some(m) => m,
            None => {
                return Err(MoveError { err_type: MoveErrorType::InvalidMove(*piece), from, to });
            },
        };
        let occupant = self.cell(to);
        let same_team = match occupant {
            Some(o) => o.team == piece.team,
            None => false,
        };
        if (!possible.capture && occupant.is_some()) || (possible.capture && occupant.is_some()
            && same_team) || (!possible._move && occupant.is_none()) {
            return Err(MoveError { err_type: MoveErrorType::InvalidMove(*piece), from, to });
        }
        if self.collides(from, to) {
            return Err(MoveError { err_type: MoveErrorType::CollisionOnPath(*piece), from, to });
        }
        Ok(())
    }

    /// The cells holding a king of `team`.
    fn kings_of(&self, team: Team) -> (v: Vec<Coord>)
        requires
            self.cells_wf(),
        ensures
            forall|j: int| 0 <= j < v.len() ==> is_king_of(self@, #[trigger] v@[j], team),
            forall|c: Coord| #[trigger] is_king_of(self@, c, team) ==> v@.contains(c),
    {
        let mut v: Vec<Coord> = Vec::new();
        let mut i: usize = 0;
        while i < SQUARE
            invariant
                self.cells_wf(),
                0 <= i <= SQUARE,
                forall|j: int| 0 <= j < v.len() ==> is_king_of(self@, #[trigger] v@[j], team),
                forall|c: Coord|
                    #![trigger is_king_of(self@, c, team)]
                    in_square(c) && cell_index(c) < i && is_king_of(self@, c, team) ==> v@.contains(c),
            decreases SQUARE - i,
        {
            let c = Coord { q: (i % SIDE) as i32 - RADIUS, r: (i / SIDE) as i32 - RADIUS };
            proof {
                lemma_grid_coord(i as int);
                assert(c == coord_at(i as int));
                self.lemma_view_at(c);
            }
            let ghost before = v@;
            if let Some(p) = self.cells[i] {
                if p.name == Name::King && p.team == team {
                    v.push(c);
                }
            }
            proof {
                assert forall|d: Coord|
                    in_square(d) && cell_index(d) < i + 1 && is_king_of(
                        self@,
                        d,
                        team,
                    ) implies v@.contains(d) by {
                    if cell_index(d) == i {
                        lemma_grid_index(d);
                        assert(v@[v.len() - 1] == d);
                    } else {
                        let j = choose|j: int| 0 <= j < before.len() && before[j] == d;
                        assert(v@[j] == d);
                    }
                }
            }
            i = i + 1;
        }
        proof {
            assert forall|c: Coord| is_king_of(self@, c, team) implies v@.contains(c) by {
                lemma_grid_index(c);
            }
        }
        v
    }

    /// Whether the piece on `pos` could capture one of the kings of `team`,
    /// given the cells of all of them.
    fn attacks_any(&self, piece: &Piece, pos: Coord, team: Team, kings: &Vec<Coord>) -> (b: bool)
        requires
            self.cells_wf(),
            on_board(pos),
            forall|j: int| 0 <= j < kings.len() ==> is_king_of(self@, #[trigger] kings@[j], team),
            forall|c: Coord| #[trigger] is_king_of(self@, c, team) ==> kings@.contains(c),
        ensures
            b == exists|k: Coord| #[trigger]
                is_king_of(self@, k, team) && unchecked_outcome(self@, *piece, pos, k) is Ok,
    {
        let mut j: usize = 0;
        while j < kings.len()
            invariant
                self.cells_wf(),
                on_board(pos),
                0 <= j <= kings.len(),
                forall|jj: int| 0 <= jj < kings.len() ==> is_king_of(self@, #[trigger] kings@[jj], team),
                forall|jj: int|
                    0 <= jj < j ==> (#[trigger] unchecked_outcome(self@, *piece, pos, kings@[jj])) is Err,
            decreases kings.len() - j,
        {
            if self.unchecked_can_move(piece, pos, kings[j]).is_ok() {
                assert(is_king_of(self@, kings@[j as int], team));
                return true;
            }
            j = j + 1;
        }
        proof {
            assert forall|k: Coord| #[trigger]
                is_king_of(self@, k, team) implies unchecked_outcome(self@, *piece, pos, k) is Err by {
                let jj = choose|jj: int| 0 <= jj < kings.len() && kings@[jj] == k;
                assert(unchecked_outcome(self@, *piece, pos, kings@[jj]) is Err);
            }
        }
        false
    }

    /// The cells of the enemy pieces that attack a king of `team`.
    fn attackers(&self, team: Team) -> (v: Vec<Coord>)
        requires
            self.cells_wf(),
        ensures
            forall|c: Coord| v@.contains(c) <==> attacks(self@, c, team),
    {
        let kings = self.kings_of(team);
        let mut v: Vec<Coord> = Vec::new();
        let mut i: usize = 0;
        while i < SQUARE
            invariant
                self.cells_wf(),
                0 <= i <= SQUARE,
                forall|j: int| 0 <= j < kings.len() ==> is_king_of(self@, #[trigger] kings@[j], team),
                forall|c: Coord| #[trigger] is_king_of(self@, c, team) ==> kings@.contains(c),
                forall|j: int| 0 <= j < v.len() ==> attacks(self@, #[trigger] v@[j], team),
                forall|c: Coord|
                    #![trigger attacks(self@, c, team)]
                    in_square(c) && cell_index(c) < i && attacks(self@, c, team) ==> v@.contains(c),
            decreases SQUARE - i,
        {
            let c = Coord { q: (i % SIDE) as i32 - RADIUS, r: (i / SIDE) as i32 - RADIUS };
            proof {
                lemma_grid_coord(i as int);
                assert(c == coord_at(i as int));
                self.lemma_view_at(c);
            }
            let ghost before = v@;
            if let Some(p) = self.cells[i] {
                if p.team != team && self.attacks_any(&p, c, team, &kings) {
                    v.push(c);
                }
            }
            proof {
                assert forall|d: Coord|
                    in_square(d) && cell_index(d) < i + 1 && attacks(
                        self@,
                        d,
                        team,
                    ) implies v@.contains(d) by {
                    if cell_index(d) == i {
                        lemma_grid_index(d);
                        assert(v@[v.len() - 1] == d);
                    } else {
                        let j = choose|j: int| 0 <= j < before.len() && before[j] == d;
                        assert(v@[j] == d);
                    }
                }
            }
            i = i + 1;
        }
        proof {
            assert forall|c: Coord| v@.contains(c) <==> attacks(self@, c, team) by {
                if attacks(self@, c, team) {
                    lemma_grid_index(c);
                }
                if v@.contains(c) {
                    let j = choose|j: int| 0 <= j < v.len() && v@[j] == c;
                    assert(attacks(self@, v@[j], team));
                }
            }
        }
        v
    }
}

/// White's half of the opening position: the kind standing on `(q, r)`.
/// Black's half is its reflection across the q axis.
pub open spec fn opening_name(q: int, r: int) -> Option<Name> {
    if q == 0 && -5 <= r <= -3 {
        Some(Name::Bishop)
    } else if q == 1 && r == -5 {
        Some(Name::King)
    } else if q == -1 && r == -4 {
        Some(Name::Queen)
    } else if (q == -2 && r == -3) || (q == 2 && r == -5) {
        Some(Name::Knight)
    } else if (q == -3 && r == -2) || (q == 3 && r == -5) {
        Some(Name::Rook)
    } else if (r == -1 && -4 <= q <= 0) || (q + r == -1 && 1 <= q <= 4) {
        Some(Name::Pawn)
    } else {
        None
    }
}

/// The opening position: White's pieces as `opening_name` gives them, and
/// Black's the same reflected across the q axis.
pub open spec fn starting_position() -> Map<Coord, Piece> {
    Map::new(
        |c: Coord|
            on_board(c) && (opening_name(c.q as int, c.r as int) is Some || opening_name(
                c.q as int,
                c.spec_s(),
            ) is Some),
        |c: Coord|
            match opening_name(c.q as int, c.r as int) {
                Some(n) => Piece { name: n, team: Team::White },
                None => Piece { name: opening_name(c.q as int, c.spec_s())->0, team: Team::Black },
            },
    )
}

/// White's half of the opening position, on any pair.
fn opening_piece(q: i32, r: i32) -> (n: Option<Name>)
    ensures
        n == opening_name(q as int, r as int),
{
    if q == 0 && -5 <= r && r <= -3 {
        Some(Name::Bishop)
    } else if q == 1 && r == -5 {
        Some(Name::King)
    } else if q == -1 && r == -4 {
        Some(Name::Queen)
    } else if (q == -2 && r == -3) || (q == 2 && r == -5) {
        Some(Name::Knight)
    } else if (q == -3 && r == -2) || (q == 3 && r == -5) {
        Some(Name::Rook)
    } else if (r == -1 && -4 <= q && q <= 0) || (q as i64 + r as i64 == -1 && 1 <= q && q <= 4) {
        Some(Name::Pawn)
    } else {
        None
    }
}

impl HexBoard {
    /// The grid is well formed and the recorded checkers of each team are
    /// exactly the enemy pieces that attack its king.
    pub closed spec fn wf(&self) -> bool {
        &&& self.cells_wf()
        &&& forall|c: Coord| #[trigger]
            self.white_checkers@.contains(c) <==> attacks(self@, c, Team::White)
        &&& forall|c: Coord| #[trigger]
            self.black_checkers@.contains(c) <==> attacks(self@, c, Team::Black)
    }

    /// Records the checkers of both teams for the current position.
    fn refresh_checkers(&mut self)
        requires
            old(self).cells_wf(),
        ensures
            final(self).wf(),
            final(self).cells == old(self).cells,
            final(self)@ == old(self)@,
    {
        self.white_checkers = self.attackers(Team::White);
        self.black_checkers = self.attackers(Team::Black);
    }

    /// Whether `team` is in check, read from the recorded checkers.
    fn checked(&self, team: Team) -> (b: bool)
        requires
            self.wf(),
        ensures
            b == in_check(self@, team),
    {
        let v = match team {
            Team::White => &self.white_checkers,
            Team::Black => &self.black_checkers,
        };
        if v.len() == 0 {
            proof {
                assert forall|c: Coord| !attacks(self@, c, team) by {
                    if attacks(self@, c, team) {
                        assert(v@.contains(c));
                    }
                }
            }
            false
        } else {
            assert(v@.contains(v@[0]));
            true
        }
    }

    /// An empty board.
    pub fn new() -> (b: HexBoard)
        ensures
            b.wf(),
            b@ == Map::<Coord, Piece>::empty(),
    {
        let mut cells: Vec<Option<Piece>> = Vec::new();
        let mut i: usize = 0;
        while i < SQUARE
            invariant
                0 <= i <= SQUARE,
                cells@.len() == i,
                forall|j: int| 0 <= j < i ==> cells@[j] is None,
            decreases SQUARE - i,
        {
            cells.push(None);
            i = i + 1;
        }
        let b = HexBoard { cells, white_checkers: Vec::new(), black_checkers: Vec::new() };
        assert(b@ =~= Map::<Coord, Piece>::empty());
        assert forall|c: Coord| !attacks(b@, c, Team::White) && !attacks(b@, c, Team::Black) by {
            assert(!b@.contains_key(c));
        }
        b
    }

    /// The board with both teams in Glinski's opening position.
    pub fn new_initialize() -> (b: HexBoard)
        ensures
            b.wf(),
            b@ == starting_position(),
    {
        let mut cells: Vec<Option<Piece>> = Vec::new();
        let mut i: usize = 0;
        while i < SQUARE
            invariant
                0 <= i <= SQUARE,
                cells@.len() == i,
                forall|j: int|
                    0 <= j < i ==> #[trigger] cells@[j] == (if starting_position().contains_key(
                        coord_at(j),
                    ) {
                        Some(starting_position()[coord_at(j)])
                    } else {
                        None
                    }),
            decreases SQUARE - i,
        {
            let q = (i % SIDE) as i32 - RADIUS;
            let r = (i / SIDE) as i32 - RADIUS;
            proof {
                lemma_grid_coord(i as int);
            }
            let c = Coord { q, r };
            assert(c == coord_at(i as int));
            let content = if Self::within_radius(q, r) {
                match opening_piece(q, r) {
                    Some(n) => Some(Piece { name: n, team: Team::White }),
                    None => match opening_piece(q, -q - r) {
                        Some(n) => Some(Piece { name: n, team: Team::Black }),
                        None => None,
                    },
                }
            } else {
                None
            };
            cells.push(content);
            i = i + 1;
        }
        let mut b = HexBoard { cells, white_checkers: Vec::new(), black_checkers: Vec::new() };
        proof {
            assert forall|j: int| 0 <= j < SQUARE && (#[trigger] b.cells@[j]) is Some implies on_board(
                coord_at(j),
            ) by {
                assert(b.cells@[j] == (if starting_position().contains_key(coord_at(j)) {
                    Some(starting_position()[coord_at(j)])
                } else {
                    None
                }));
            }
            assert forall|c: Coord| #[trigger]
                b@.contains_key(c) == starting_position().contains_key(c) && (b@.contains_key(c)
                    ==> b@[c] == starting_position()[c]) by {
                if in_square(c) {
                    lemma_grid_index(c);
                    b.lemma_view_at(c);
                    assert(b.cells@[cell_index(c)] == (if starting_position().contains_key(
                        coord_at(cell_index(c)),
                    ) {
                        Some(starting_position()[coord_at(cell_index(c))])
                    } else {
                        None
                    }));
                }
            }
            assert(b@ =~= starting_position());
        }
        b.refresh_checkers();
        b
    }

    /// The piece on `c`.
    pub fn get(&self, c: Coord) -> (r: Result<&Piece, GetError>)
        requires
            self.wf(),
        ensures
            match r {
                Ok(p) => self@.contains_key(c) && *p == self@[c],
                Err(e) => !self@.contains_key(c) && e == GetError::NoPiece(c),
            },
    {
        if !Self::within_radius(c.q, c.r) {
            return Err(GetError::NoPiece(c));
        }
        proof {
            self.lemma_view_at(c);
        }
        let i = ((c.r + RADIUS) as usize) * SIDE + ((c.q + RADIUS) as usize);
        match &self.cells[i] {
            Some(p) => Ok(p),
            None => Err(GetError::NoPiece(c)),
        }
    }

    /// Puts `piece` on `c`, replacing whatever stood there.
    pub fn place(&mut self, c: Coord, piece: Piece)
        requires
            old(self).wf(),
            on_board(c),
        ensures
            final(self).wf(),
            final(self)@ == old(self)@.insert(c, piece),
    {
        proof {
            lemma_grid_index(c);
        }
        let i = ((c.r + RADIUS) as usize) * SIDE + ((c.q + RADIUS) as usize);
        let ghost before = self@;
        self.cells.set(i, Some(piece));
        proof {
            assert forall|d: Coord| #[trigger]
                self@.contains_key(d) == before.insert(c, piece).contains_key(d) && (self@.contains_key(
                    d,
                ) ==> self@[d] == before.insert(c, piece)[d]) by {
                if in_square(d) {
                    lemma_grid_index(d);
                }
            }
            assert(self@ =~= before.insert(c, piece));
        }
        self.refresh_checkers();
    }

    /// Carries the piece on `from` to `to`, capturing whatever stood there.
    fn teleport(&mut self, from: Coord, to: Coord)
        requires
            old(self).cells_wf(),
            old(self)@.contains_key(from),
            on_board(to),
        ensures
            final(self).cells_wf(),
            final(self)@ == relocated(old(self)@, from, to),
    {
        proof {
            lemma_grid_index(from);
            lemma_grid_index(to);
            old(self).lemma_view_at(from);
        }
        let fi = ((from.r + RADIUS) as usize) * SIDE + ((from.q + RADIUS) as usize);
        let ti = ((to.r + RADIUS) as usize) * SIDE + ((to.q + RADIUS) as usize);
        let ghost before = self@;
        let moving = self.cells[fi];
        self.cells.set(fi, None);
        self.cells.set(ti, moving);
        proof {
            assert forall|d: Coord| #[trigger]
                self@.contains_key(d) == relocated(before, from, to).contains_key(d) && (
                self@.contains_key(d) ==> self@[d] == relocated(before, from, to)[d]) by {
                if in_square(d) {
                    lemma_grid_index(d);
                }
            }
            assert(self@ =~= relocated(before, from, to));
        }
    }

    /// A scratch copy of the grid with the piece on `from` carried to `to`.
    fn projected(&self, from: Coord, to: Coord) -> (b: HexBoard)
        requires
            self.cells_wf(),
            self@.contains_key(from),
            on_board(to),
        ensures
            b.cells_wf(),
            b@ == relocated(self@, from, to),
    {
        let mut cells: Vec<Option<Piece>> = Vec::new();
        let mut i: usize = 0;
        while i < SQUARE
            invariant
                self.cells_wf(),
                0 <= i <= SQUARE,
                cells@ == self.cells@.subrange(0, i as int),
            decreases SQUARE - i,
        {
            cells.push(self.cells[i]);
            i = i + 1;
            assert(cells@ =~= self.cells@.subrange(0, i as int));
        }
        assert(cells@ =~= self.cells@);
        let mut b = HexBoard { cells, white_checkers: Vec::new(), black_checkers: Vec::new() };
        assert(b@ =~= self@);
        b.teleport(from, to);
        b
    }

    /// Whether moving the piece on `from` to `to` is legal.
    pub fn can_move(&self, from: Coord, to: Coord) -> (r: Result<(), MoveError>)
        requires
            self.wf(),
        ensures
            r == move_outcome(self@, from, to),
    {
        let piece = match self.get(from) {
            Ok(p) => *p,
            Err(e) => {
                return Err(MoveError { err_type: MoveErrorType::NoPiece(e), from, to });
            },
        };
        proof {
            if !in_square(from) {
                assert(!on_board(from));
            }
        }
        match self.unchecked_can_move(&piece, from, to) {
            Err(e) => {
                return Err(e);
            },
            Ok(()) => {},
        }
        if !self.checked(piece.team) {
            return Ok(());
        }
        let after = self.projected(from, to);
        let remaining = after.attackers(piece.team);
        if remaining.len() == 0 {
            proof {
                assert forall|c: Coord| !attacks(after@, c, piece.team) by {
                    if attacks(after@, c, piece.team) {
                        assert(remaining@.contains(c));
                    }
                }
            }
            Ok(())
        } else {
            assert(remaining@.contains(remaining@[0]));
            Err(MoveError { err_type: MoveErrorType::InvalidMove(piece), from, to })
        }
    }
}

/// A legal move never starts and ends on the same cell. After it the start cell
/// is empty, the target holds the moved piece, and every other cell holds what it
/// held before: each occupied cell holds one piece and no piece is duplicated.
/// The number of pieces drops by one exactly when the move captures.
pub proof fn lemma_move_relocates_one_piece(b: Map<Coord, Piece>, from: Coord, to: Coord)
    requires
        move_outcome(b, from, to) is Ok,
    ensures
        from != to,
        relocated(b, from, to).dom() == b.dom().remove(from).insert(to),
        !relocated(b, from, to).contains_key(from),
        relocated(b, from, to)[to] == b[from],
        forall|c: Coord|
            c != from && c != to ==> (#[trigger] relocated(b, from, to).contains_key(c)
                == b.contains_key(c)) && (b.contains_key(c) ==> relocated(b, from, to)[c] == b[c]),
        b.dom().finite() ==> relocated(b, from, to).dom().len() == if b.contains_key(to) {
            b.dom().len() - 1
        } else {
            b.dom().len() as int
        },
{
    let a = relocated(b, from, to);
    assert(a.dom() =~= b.dom().remove(from).insert(to));
    if b.dom().finite() {
        assert(b.dom().remove(from).len() == b.dom().len() - 1);
        if b.contains_key(to) {
            assert(b.dom().remove(from).contains(to));
        }
    }
}

impl HexBoard {
    /// Plays the move if it is legal; a rejected move leaves the board as it was.
    pub fn move_piece(&mut self, from: Coord, to: Coord) -> (r: Result<(), MoveError>)
        requires
            old(self).wf(),
        ensures
            final(self).wf(),
            r == move_outcome(old(self)@, from, to),
            r is Ok ==> final(self)@ == relocated(old(self)@, from, to),
            r is Err ==> *final(self) == *old(self),
    {
        match self.can_move(from, to) {
            Err(e) => {
                return Err(e);
            },
            Ok(()) => {},
        }
        self.teleport(from, to);
        self.refresh_checkers();
        Ok(())
    }

    /// Whether `team` is in check with no legal move.
    pub fn is_checkmated(&self, team: Team) -> (b: bool)
        requires
            self.wf(),
        ensures
            b == checkmated(self@, team),
    {
        if !self.checked(team) {
            return false;
        }
        let mut i: usize = 0;
        while i < SQUARE
            invariant
                self.wf(),
                in_check(self@, team),
                0 <= i <= SQUARE,
                forall|from: Coord, to: Coord|
                    in_square(from) && cell_index(from) < i && self@.contains_key(from)
                        && self@[from].team == team ==> (#[trigger] move_outcome(
                        self@,
                        from,
                        to,
                    )) is Err,
            decreases SQUARE - i,
        {
            let from = Coord { q: (i % SIDE) as i32 - RADIUS, r: (i / SIDE) as i32 - RADIUS };
            proof {
                lemma_grid_coord(i as int);
                assert(from == coord_at(i as int));
                self.lemma_view_at(from);
            }
            let own = match self.cells[i] {
                Some(p) => p.team == team,
                None => false,
            };
            if own {
                let mut j: usize = 0;
                while j < SQUARE
                    invariant
                        self.wf(),
                        0 <= j <= SQUARE,
                        self@.contains_key(from),
                        self@[from].team == team,
                        forall|to: Coord|
                            in_square(to) && cell_index(to) < j ==> (#[trigger] move_outcome(
                                self@,
                                from,
                                to,
                            )) is Err,
                    decreases SQUARE - j,
                {
                    let to = Coord { q: (j % SIDE) as i32 - RADIUS, r: (j / SIDE) as i32 - RADIUS };
                    proof {
                        lemma_grid_coord(j as int);
                        assert(to == coord_at(j as int));
                    }
                    if self.can_move(from, to).is_ok() {
                        assert(move_outcome(self@, from, to) is Ok);
                        return false;
                    }
                    proof {
                        assert forall|d: Coord|
                            in_square(d) && cell_index(d) < j + 1 implies (#[trigger] move_outcome(
                            self@,
                            from,
                            d,
                        )) is Err by {
                            if cell_index(d) == j {
                                lemma_grid_index(d);
                            }
                        }
                    }
                    j = j + 1;
                }
                proof {
                    assert forall|to: Coord| (#[trigger] move_outcome(self@, from, to)) is Err by {
                        if in_square(to) {
                            lemma_grid_index(to);
                        } else {
                            assert(!on_board(to));
                        }
                    }
                }
            }
            proof {
                assert forall|f: Coord, to: Coord|
                    in_square(f) && cell_index(f) < i + 1 && self@.contains_key(f) && self@[f].team
                        == team implies (#[trigger] move_outcome(self@, f, to)) is Err by {
                    if cell_index(f) == i {
                        lemma_grid_index(f);
                        assert(f == from);
                    }
                }
            }
            i = i + 1;
        }
        proof {
            assert forall|from: Coord, to: Coord|
                self@.contains_key(from) && self@[from].team == team implies (#[trigger] move_outcome(
                self@,
                from,
                to,
            )) is Err by {
                lemma_grid_index(from);
            }
        }
        true
    }
}

impl Default for HexBoard {
    fn default() -> (b: HexBoard)
        ensures
            b.wf(),
            b@ == Map::<Coord, Piece>::empty(),
    {
        HexBoard::new()
    }
}

} // verus!
