use vstd::prelude::*;

verus! {

/// Hex distance of the cube vector `(q, r, -q - r)`.
pub open spec fn hex_len(q: int, r: int) -> int {
    let s = -q - r;
    let aq = if q < 0 { -q } else { q };
    let ar = if r < 0 { -r } else { r };
    let as_ = if s < 0 { -s } else { s };
    if aq >= ar && aq >= as_ {
        aq
    } else if ar >= as_ {
        ar
    } else {
        as_
    }
}

/// Squared Euclidean norm of the cube vector `(q, r, -q - r)`, halved.
pub open spec fn norm_sq(q: int, r: int) -> int {
    q * q + r * r + q * r
}

/// The vector lies on one of the three cube axes: exactly one component is zero.
pub open spec fn on_axis(q: int, r: int) -> bool {
    let s = -q - r;
    (q == 0 && r != 0 && s != 0) || (r == 0 && q != 0 && s != 0) || (s == 0 && q != 0 && r != 0)
}

/// A hex cell in cube coordinates; the third component is `s = -q - r`.
#[derive(Debug, Clone, Copy, PartialEq, Eq, Structural, Hash)]
pub struct Coord {
    pub q: i32,
    pub r: i32,
}

impl Coord {
    /// The third cube component, as a mathematical integer.
    pub open spec fn spec_s(self) -> int {
        -(self.q as int) - (self.r as int)
    }

    /// `s` is representable as an `i32`.
    pub open spec fn s_fits(self) -> bool {
        i32::MIN <= self.spec_s() <= i32::MAX
    }

    pub fn new(q: i32, r: i32) -> (c: Coord)
        ensures
            c.q == q,
            c.r == r,
    {
        Coord { q, r }
    }

    pub fn s(&self) -> (s: i32)
        requires
            self.s_fits(),
        ensures
            s == self.spec_s(),
            self.q + self.r + s == 0,
    {
        (-(self.q as i64) - (self.r as i64)) as i32
    }

    /// Hex (Chebyshev-style) distance from the origin: `max(|q|, |r|, |s|)`.
    pub fn length(&self) -> (l: i32)
        requires
            i32::MIN < self.q,
            i32::MIN < self.r,
            i32::MIN < self.spec_s() <= i32::MAX,
        ensures
            l == hex_len(self.q as int, self.r as int),
    {
        let q = self.q as i64;
        let r = self.r as i64;
        let s = -q - r;
        let aq = if q < 0 { -q } else { q };
        let ar = if r < 0 { -r } else { r };
        let as_ = if s < 0 { -s } else { s };
        let m = if aq >= ar && aq >= as_ {
            aq
        } else if ar >= as_ {
            ar
        } else {
            as_
        };
        m as i32
    }

    /// `q² + r² + qr`.
    pub fn norm_squared(&self) -> (n: i32)
        requires
            norm_sq(self.q as int, self.r as int) <= i32::MAX,
        ensures
            n == norm_sq(self.q as int, self.r as int),
    {
        let q = self.q as i64;
        let r = self.r as i64;
        proof {
            let qi = q as int;
            let ri = r as int;
            assert((qi + ri) * (qi + ri) >= 0) by (nonlinear_arith);
            assert(qi * qi <= 2 * norm_sq(qi, ri) && ri * ri <= 2 * norm_sq(qi, ri)) by (nonlinear_arith)
                requires
                    (qi + ri) * (qi + ri) >= 0,
            {
            }
            assert(-0x10000 <= qi <= 0x10000) by (nonlinear_arith)
                requires
                    qi * qi <= 2 * 0x7fff_ffff,
            {
            }
            assert(-0x10000 <= ri <= 0x10000) by (nonlinear_arith)
                requires
                    ri * ri <= 2 * 0x7fff_ffff,
            {
            }
            assert(-0x1_0000_0000 <= qi * qi <= 0x1_0000_0000) by (nonlinear_arith)
                requires
                    -0x10000 <= qi <= 0x10000,
            {
            }
            assert(-0x1_0000_0000 <= ri * ri <= 0x1_0000_0000) by (nonlinear_arith)
                requires
                    -0x10000 <= ri <= 0x10000,
            {
            }
            assert(-0x1_0000_0000 <= qi * ri <= 0x1_0000_0000) by (nonlinear_arith)
                requires
                    -0x10000 <= qi <= 0x10000,
                    -0x10000 <= ri <= 0x10000,
            {
            }
        }
        (q * q + r * r + q * r) as i32
    }

    /// Reflection across the q axis: `(q, r, s) -> (q, s, r)`.
    pub fn reflect_q(self) -> (c: Coord)
        requires
            self.s_fits(),
        ensures
            c.q == self.q,
            c.r == self.spec_s(),
            c.spec_s() == self.r,
    {
        Coord::new(self.q, self.s())
    }

    /// True iff exactly one cube component is zero.
    pub fn is_axis(&self) -> (b: bool)
        ensures
            b == on_axis(self.q as int, self.r as int),
    {
        let q = self.q as i64;
        let r = self.r as i64;
        let s = -q - r;
        (q == 0 && r != 0 && s != 0) || (r == 0 && q != 0 && s != 0) || (s == 0 && q != 0 && r != 0)
    }
}

impl From<(i32, i32)> for Coord {
    fn from(p: (i32, i32)) -> (c: Coord) {
        Coord::new(p.0, p.1)
    }
}

impl vstd::std_specs::convert::FromSpecImpl<(i32, i32)> for Coord {
    open spec fn obeys_from_spec() -> bool {
        true
    }

    open spec fn from_spec(p: (i32, i32)) -> Coord {
        Coord { q: p.0, r: p.1 }
    }
}

impl core::ops::Add for Coord {
    type Output = Coord;

    fn add(self, rhs: Coord) -> (c: Coord) {
        Coord::new(self.q + rhs.q, self.r + rhs.r)
    }
}

impl vstd::std_specs::ops::AddSpecImpl for Coord {
    open spec fn obeys_add_spec() -> bool {
        true
    }

    open spec fn add_req(self, rhs: Coord) -> bool {
        i32::MIN <= self.q + rhs.q <= i32::MAX && i32::MIN <= self.r + rhs.r <= i32::MAX
    }

    open spec fn add_spec(self, rhs: Coord) -> Coord {
        Coord { q: (self.q + rhs.q) as i32, r: (self.r + rhs.r) as i32 }
    }
}

impl core::ops::Sub for Coord {
    type Output = Coord;

    fn sub(self, rhs: Coord) -> (c: Coord) {
        Coord::new(self.q - rhs.q, self.r - rhs.r)
    }
}

impl vstd::std_specs::ops::SubSpecImpl for Coord {
    open spec fn obeys_sub_spec() -> bool {
        true
    }

    open spec fn sub_req(self, rhs: Coord) -> bool {
        i32::MIN <= self.q - rhs.q <= i32::MAX && i32::MIN <= self.r - rhs.r <= i32::MAX
    }

    open spec fn sub_spec(self, rhs: Coord) -> Coord {
        Coord { q: (self.q - rhs.q) as i32, r: (self.r - rhs.r) as i32 }
    }
}

impl core::ops::Mul<i32> for Coord {
    type Output = Coord;

    fn mul(self, rhs: i32) -> (c: Coord) {
        Coord::new(self.q * rhs, self.r * rhs)
    }
}

impl vstd::std_specs::ops::MulSpecImpl<i32> for Coord {
    open spec fn obeys_mul_spec() -> bool {
        true
    }

    open spec fn mul_req(self, rhs: i32) -> bool {
        i32::MIN <= self.q * rhs <= i32::MAX && i32::MIN <= self.r * rhs <= i32::MAX
    }

    open spec fn mul_spec(self, rhs: i32) -> Coord {
        Coord { q: (self.q * rhs) as i32, r: (self.r * rhs) as i32 }
    }
}

/// Division rounding towards zero, as `/` does on machine integers.
pub open spec fn trunc_div(a: int, b: int) -> int {
    if a >= 0 {
        a / b
    } else {
        -((-a) / b)
    }
}

impl core::ops::Div<i32> for Coord {
    type Output = Coord;

    fn div(self, rhs: i32) -> (c: Coord) {
        Coord::new(self.q / rhs, self.r / rhs)
    }
}

impl vstd::std_specs::ops::DivSpecImpl<i32> for Coord {
    open spec fn obeys_div_spec() -> bool {
        true
    }

    open spec fn div_req(self, rhs: i32) -> bool {
        rhs != 0 && !(rhs == -1 && (self.q == i32::MIN || self.r == i32::MIN))
    }

    open spec fn div_spec(self, rhs: i32) -> Coord {
        Coord { q: trunc_div(self.q as int, rhs as int) as i32, r: trunc_div(self.r as int, rhs as int) as i32 }
    }
}

impl core::ops::Div for Coord {
    type Output = Coord;

    fn div(self, rhs: Coord) -> (c: Coord) {
        Coord::new(self.q / rhs.q, self.r / rhs.r)
    }
}

impl vstd::std_specs::ops::DivSpecImpl for Coord {
    open spec fn obeys_div_spec() -> bool {
        true
    }

    open spec fn div_req(self, rhs: Coord) -> bool {
        &&& rhs.q != 0 && !(rhs.q == -1 && self.q == i32::MIN)
        &&& rhs.r != 0 && !(rhs.r == -1 && self.r == i32::MIN)
    }

    open spec fn div_spec(self, rhs: Coord) -> Coord {
        Coord {
            q: trunc_div(self.q as int, rhs.q as int) as i32,
            r: trunc_div(self.r as int, rhs.r as int) as i32,
        }
    }
}

/// Every coordinate satisfies the cube constraint `q + r + s = 0`.
pub proof fn lemma_cube_constraint(c: Coord)
    ensures
        c.q + c.r + c.spec_s() == 0,
{
}

} // verus!
