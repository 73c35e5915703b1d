use vstd::prelude::*;

use crate::coord::{hex_len, norm_sq, Coord};

verus! {

/// For a shape that a piece may make: whether it may end on an empty cell
/// (`_move`) and whether it may end on an enemy piece (`capture`).
#[derive(Debug, Clone, Copy, PartialEq, Eq, Structural)]
pub struct MovesPossible {
    pub _move: bool,
    pub capture: bool,
}

#[derive(Debug, Clone, Copy, PartialEq, Eq, Structural, Hash)]
pub enum Name {
    King,
    Queen,
    Bishop,
    Knight,
    Rook,
    Pawn,
}

#[derive(Debug, Clone, Copy, PartialEq, Eq, Structural, Hash)]
pub enum Team {
    White,
    Black,
}

#[derive(Debug, Clone, Copy, PartialEq, Eq, Structural, Hash)]
pub struct Piece {
    pub name: Name,
    pub team: Team,
}

pub open spec fn both_ways() -> MovesPossible {
    MovesPossible { _move: true, capture: true }
}

pub open spec fn quiet_only() -> MovesPossible {
    MovesPossible { _move: true, capture: false }
}

pub open spec fn capture_only() -> MovesPossible {
    MovesPossible { _move: false, capture: true }
}

/// The cells, in White's frame, onto which a pawn may arrive by a double step.
pub open spec fn double_step_cell(q: int, r: int) -> bool {
    (r == 1 && -4 <= q <= 0) || (q == 1 && -3 <= r <= 0)
}

/// Pawn shapes in White's frame: forward is increasing `r` at fixed `q`.
pub open spec fn pawn_shape(fq: int, fr: int, tq: int, tr: int) -> Option<MovesPossible> {
    if fq == tq && (fr + 1 == tr || (double_step_cell(tq, tr) && fr + 2 == tr)) {
        Some(quiet_only())
    } else if (fq + 1 == tq && fr == tr) || (fq - 1 == tq && fr + 1 == tr) {
        Some(capture_only())
    } else {
        None
    }
}

/// `(vq, vr)` is a non-zero multiple of one of the six diagonal directions
/// `±(1, 1)`, `±(1, -2)`, `±(2, -1)`.
pub open spec fn diagonal_multiple(vq: int, vr: int) -> bool {
    !(vq == 0 && vr == 0) && (vq == vr || vr == -2 * vq || vq == -2 * vr)
}

/// Two cells whose difference is `(vq, vr)` share a cube axis (q, r or s).
pub open spec fn shares_axis(vq: int, vr: int) -> bool {
    vq == 0 || vr == 0 || vq + vr == 0
}

pub open spec fn abs(x: int) -> int {
    if x < 0 {
        -x
    } else {
        x
    }
}

/// The hex knight's jump: `|q · r · s| = 6`.
pub open spec fn knight_jump(vq: int, vr: int) -> bool {
    abs(vq * vr * (-vq - vr)) == 6
}

/// One step to a neighbour, or one short diagonal step.
pub open spec fn king_step(vq: int, vr: int) -> bool {
    hex_len(vq, vr) == 1 || norm_sq(vq, vr) == 3
}

/// The shape rule of each kind, from `(fq, fr)` to `(tq, tr)` in White's frame.
pub open spec fn name_shape(name: Name, fq: int, fr: int, tq: int, tr: int) -> Option<MovesPossible> {
    let vq = tq - fq;
    let vr = tr - fr;
    match name {
        Name::Pawn => pawn_shape(fq, fr, tq, tr),
        Name::Bishop => if diagonal_multiple(vq, vr) { Some(both_ways()) } else { None },
        Name::Rook => if shares_axis(vq, vr) { Some(both_ways()) } else { None },
        Name::Knight => if knight_jump(vq, vr) { Some(both_ways()) } else { None },
        Name::Queen => if shares_axis(vq, vr) || diagonal_multiple(vq, vr) {
            Some(both_ways())
        } else {
            None
        },
        Name::King => if king_step(vq, vr) { Some(both_ways()) } else { None },
    }
}

/// The shape rule of a piece: Black's geometry is White's reflected across the q axis.
pub open spec fn piece_shape(p: Piece, f: Coord, t: Coord) -> Option<MovesPossible> {
    match p.team {
        Team::White => name_shape(p.name, f.q as int, f.r as int, t.q as int, t.r as int),
        Team::Black => name_shape(p.name, f.q as int, f.spec_s(), t.q as int, t.spec_s()),
    }
}

/// Bound on the components handed to the shape rules: large enough for any
/// `i32` coordinate and its reflection.
pub open spec fn in_shape_range(x: i64) -> bool {
    -0x1_0000_0000 <= x <= 0x1_0000_0000
}

pub open spec fn name_text(n: Name) -> Seq<char> {
    match n {
        Name::King => seq!['k', 'i', 'n', 'g'],
        Name::Queen => seq!['q', 'u', 'e', 'e', 'n'],
        Name::Bishop => seq!['b', 'i', 's', 'h', 'o', 'p'],
        Name::Knight => seq!['k', 'n', 'i', 'g', 'h', 't'],
        Name::Rook => seq!['r', 'o', 'o', 'k'],
        Name::Pawn => seq!['p', 'a', 'w', 'n'],
    }
}

pub open spec fn team_text(t: Team) -> Seq<char> {
    match t {
        Team::White => seq!['w', 'h', 'i', 't', 'e'],
        Team::Black => seq!['b', 'l', 'a', 'c', 'k'],
    }
}

impl Name {
    /// The kind in lower case, as shown to a player.
    pub fn label(&self) -> (s: &'static str)
        ensures
            s@ == name_text(*self),
    {
        proof {
            reveal_strlit("king");
            reveal_strlit("queen");
            reveal_strlit("bishop");
            reveal_strlit("knight");
            reveal_strlit("rook");
            reveal_strlit("pawn");
        }
        match self {
            Name::King => "king",
            Name::Queen => "queen",
            Name::Bishop => "bishop",
            Name::Knight => "knight",
            Name::Rook => "rook",
            Name::Pawn => "pawn",
        }
    }

    pub fn pawn() -> (n: Name)
        ensures
            n == Name::Pawn,
    {
        Name::Pawn
    }

    fn verify_pawn(&self, f: (i64, i64), t: (i64, i64)) -> (m: Option<MovesPossible>)
        requires
            in_shape_range(f.0),
            in_shape_range(f.1),
            in_shape_range(t.0),
            in_shape_range(t.1),
        ensures
            m == pawn_shape(f.0 as int, f.1 as int, t.0 as int, t.1 as int),
    {
        let double_step = (t.1 == 1 && -4 <= t.0 && t.0 <= 0) || (t.0 == 1 && -3 <= t.1 && t.1 <= 0);
        if f.0 == t.0 && (f.1 + 1 == t.1 || (double_step && f.1 + 2 == t.1)) {
            Some(MovesPossible { _move: true, capture: false })
        } else if (f.0 + 1 == t.0 && f.1 == t.1) || (f.0 - 1 == t.0 && f.1 + 1 == t.1) {
            Some(MovesPossible { _move: false, capture: true })
        } else {
            None
        }
    }

    fn verify_bishop(&self, f: (i64, i64), t: (i64, i64)) -> (m: Option<MovesPossible>)
        requires
            in_shape_range(f.0),
            in_shape_range(f.1),
            in_shape_range(t.0),
            in_shape_range(t.1),
        ensures
            m == (if diagonal_multiple(t.0 - f.0, t.1 - f.1) {
                Some(both_ways())
            } else {
                None
            }),
    {
        let vq = t.0 - f.0;
        let vr = t.1 - f.1;
        if !(vq == 0 && vr == 0) && (vq == vr || vr + 2 * vq == 0 || vq + 2 * vr == 0) {
            Some(MovesPossible { _move: true, capture: true })
        } else {
            None
        }
    }

    fn verify_rook(&self, f: (i64, i64), t: (i64, i64)) -> (m: Option<MovesPossible>)
        requires
            in_shape_range(f.0),
            in_shape_range(f.1),
            in_shape_range(t.0),
            in_shape_range(t.1),
        ensures
            m == (if shares_axis(t.0 - f.0, t.1 - f.1) {
                Some(both_ways())
            } else {
                None
            }),
    {
        let vq = t.0 - f.0;
        let vr = t.1 - f.1;
        if vq == 0 || vr == 0 || vq + vr == 0 {
            Some(MovesPossible { _move: true, capture: true })
        } else {
            None
        }
    }

    fn verify_knight(&self, f: (i64, i64), t: (i64, i64)) -> (m: Option<MovesPossible>)
        requires
            in_shape_range(f.0),
            in_shape_range(f.1),
            in_shape_range(t.0),
            in_shape_range(t.1),
        ensures
            m == (if knight_jump(t.0 - f.0, t.1 - f.1) {
                Some(both_ways())
            } else {
                None
            }),
    {
        let vq = (t.0 - f.0) as i128;
        let vr = (t.1 - f.1) as i128;
        let vs = -vq - vr;
        proof {
            let (a, b, c) = (vq as int, vr as int, vs as int);
            assert(-0x4_0000_0000_0000_0000 <= a * b <= 0x4_0000_0000_0000_0000) by (nonlinear_arith)
                requires
                    -0x2_0000_0000 <= a <= 0x2_0000_0000,
                    -0x2_0000_0000 <= b <= 0x2_0000_0000,
            {
            }
            assert(-0x10_0000_0000_0000_0000_0000_0000 <= (a * b) * c <= 0x10_0000_0000_0000_0000_0000_0000)
                by (nonlinear_arith)
                requires
                    -0x4_0000_0000_0000_0000 <= a * b <= 0x4_0000_0000_0000_0000,
                    -0x4_0000_0000 <= c <= 0x4_0000_0000,
            {
            }
        }
        let p = vq * vr * vs;
        if p == 6 || p == -6 {
            Some(MovesPossible { _move: true, capture: true })
        } else {
            None
        }
    }

    fn verify_king(&self, f: (i64, i64), t: (i64, i64)) -> (m: Option<MovesPossible>)
        requires
            in_shape_range(f.0),
            in_shape_range(f.1),
            in_shape_range(t.0),
            in_shape_range(t.1),
        ensures
            m == (if king_step(t.0 - f.0, t.1 - f.1) {
                Some(both_ways())
            } else {
                None
            }),
    {
        let vq = t.0 - f.0;
        let vr = t.1 - f.1;
        let vs = -vq - vr;
        let aq = if vq < 0 { -vq } else { vq };
        let ar = if vr < 0 { -vr } else { vr };
        let as_ = if vs < 0 { -vs } else { vs };
        let len = if aq >= ar && aq >= as_ {
            aq
        } else if ar >= as_ {
            ar
        } else {
            as_
        };
        let (wq, wr) = (vq as i128, vr as i128);
        proof {
            let (a, b) = (wq as int, wr as int);
            assert(0 <= a * a <= 0x4_0000_0000_0000_0000) by (nonlinear_arith)
                requires
                    -0x2_0000_0000 <= a <= 0x2_0000_0000,
            {
            }
            assert(0 <= b * b <= 0x4_0000_0000_0000_0000) by (nonlinear_arith)
                requires
                    -0x2_0000_0000 <= b <= 0x2_0000_0000,
            {
            }
            assert(-0x4_0000_0000_0000_0000 <= a * b <= 0x4_0000_0000_0000_0000) by (nonlinear_arith)
                requires
                    -0x2_0000_0000 <= a <= 0x2_0000_0000,
                    -0x2_0000_0000 <= b <= 0x2_0000_0000,
            {
            }
        }
        if len == 1 || wq * wq + wr * wr + wq * wr == 3 {
            Some(MovesPossible { _move: true, capture: true })
        } else {
            None
        }
    }

    /// Dispatch on the kind, with coordinates already in White's frame.
    fn verify_shape(&self, f: (i64, i64), t: (i64, i64)) -> (m: Option<MovesPossible>)
        requires
            in_shape_range(f.0),
            in_shape_range(f.1),
            in_shape_range(t.0),
            in_shape_range(t.1),
        ensures
            m == name_shape(*self, f.0 as int, f.1 as int, t.0 as int, t.1 as int),
    {
        match self {
            Name::Pawn => self.verify_pawn(f, t),
            Name::Bishop => self.verify_bishop(f, t),
            Name::Rook => self.verify_rook(f, t),
            Name::Knight => self.verify_knight(f, t),
            Name::Queen => match self.verify_rook(f, t) {
                Some(m) => Some(m),
                None => self.verify_bishop(f, t),
            },
            Name::King => self.verify_king(f, t),
        }
    }

    /// The shape rule of this kind from `f` to `t`, in White's frame.
    pub fn verify_move(&self, f: Coord, t: Coord) -> (m: Option<MovesPossible>)
        ensures
            m == name_shape(*self, f.q as int, f.r as int, t.q as int, t.r as int),
    {
        self.verify_shape((f.q as i64, f.r as i64), (t.q as i64, t.r as i64))
    }
}

impl Team {
    /// The team in lower case, as shown to a player.
    pub fn label(&self) -> (s: &'static str)
        ensures
            s@ == team_text(*self),
    {
        proof {
            reveal_strlit("white");
            reveal_strlit("black");
        }
        match self {
            Team::White => "white",
            Team::Black => "black",
        }
    }

    pub open spec fn other(self) -> Team {
        match self {
            Team::White => Team::Black,
            Team::Black => Team::White,
        }
    }

    pub fn flip(self) -> (t: Team)
        ensures
            t == self.other(),
            t != self,
    {
        match self {
            Team::White => Team::Black,
            Team::Black => Team::White,
        }
    }
}

impl Piece {
    pub fn new(name: Name, team: Team) -> (p: Piece)
        ensures
            p == (Piece { name, team }),
    {
        Piece { name, team }
    }

    pub fn flip_team(self) -> (p: Piece)
        ensures
            p == (Piece { name: self.name, team: self.team.other() }),
    {
        Piece { name: self.name, team: self.team.flip() }
    }

    /// The shape rule of this piece from `f` to `t`; for Black both cells are
    /// first reflected across the q axis.
    pub fn verify_move(&self, f: Coord, t: Coord) -> (m: Option<MovesPossible>)
        ensures
            m == piece_shape(*self, f, t),
    {
        let (fq, fr, tq, tr) = (f.q as i64, f.r as i64, t.q as i64, t.r as i64);
        match self.team {
            Team::White => self.name.verify_shape((fq, fr), (tq, tr)),
            Team::Black => self.name.verify_shape((fq, -fq - fr), (tq, -tq - tr)),
        }
    }

    /// The standard chess glyph of this piece.
    pub fn glyph(&self) -> (c: char)
        ensures
            c == glyph_of(*self),
    {
        match self.team {
            Team::White => match self.name {
                Name::Pawn => '♙',
                Name::Knight => '♘',
                Name::Bishop => '♗',
                Name::Rook => '♖',
                Name::Queen => '♕',
                Name::King => '♔',
            },
            Team::Black => match self.name {
                Name::Pawn => '♟',
                Name::Knight => '♞',
                Name::Bishop => '♝',
                Name::Rook => '♜',
                Name::Queen => '♛',
                Name::King => '♚',
            },
        }
    }
}

pub open spec fn glyph_of(p: Piece) -> char {
    match (p.team, p.name) {
        (Team::White, Name::Pawn) => '♙',
        (Team::White, Name::Knight) => '♘',
        (Team::White, Name::Bishop) => '♗',
        (Team::White, Name::Rook) => '♖',
        (Team::White, Name::Queen) => '♕',
        (Team::White, Name::King) => '♔',
        (Team::Black, Name::Pawn) => '♟',
        (Team::Black, Name::Knight) => '♞',
        (Team::Black, Name::Bishop) => '♝',
        (Team::Black, Name::Rook) => '♜',
        (Team::Black, Name::Queen) => '♛',
        (Team::Black, Name::King) => '♚',
    }
}

/// A White piece and a Black piece of the same kind accept mirrored moves:
/// the shape of `f -> t` for one team is the shape of `reflect_q(f) -> reflect_q(t)`
/// for the other.
pub proof fn lemma_team_symmetry(name: Name, f: Coord, t: Coord)
    requires
        f.s_fits(),
        t.s_fits(),
    ensures
        piece_shape(Piece { name, team: Team::White }, f, t) == piece_shape(
            Piece { name, team: Team::Black },
            Coord { q: f.q, r: f.spec_s() as i32 },
            Coord { q: t.q, r: t.spec_s() as i32 },
        ),
        piece_shape(Piece { name, team: Team::Black }, f, t) == piece_shape(
            Piece { name, team: Team::White },
            Coord { q: f.q, r: f.spec_s() as i32 },
            Coord { q: t.q, r: t.spec_s() as i32 },
        ),
{
}

} // verus!
