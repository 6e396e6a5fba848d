//! Points on the map in fixed point: one map unit is `POINT_SCALE` steps.
use vstd::prelude::*;

verus! {

/// Number of fixed-point steps in one map unit.
pub const POINT_SCALE: i32 = 256;

/// A position on the map, each coordinate counted in `1 / POINT_SCALE` map units.
#[derive(Clone, Copy, PartialEq, Eq, Structural, Debug)]
pub struct Point {
    pub x: i32,
    pub y: i32,
}

/// The squared euclidean distance between two points, in squared steps.
pub open spec fn dist2(a: Point, b: Point) -> int {
    (a.x - b.x) * (a.x - b.x) + (a.y - b.y) * (a.y - b.y)
}

impl Point {
    pub fn new(x: i32, y: i32) -> (p: Point)
        ensures
            p.x == x,
            p.y == y,
    {
        Point { x, y }
    }
}

/// Squared distance between `a` and `b`.
pub fn distance_squared(a: &Point, b: &Point) -> (d: u128)
    ensures
        d == dist2(*a, *b),
        d <= 0x2_0000_0000_0000_0000,
{
    let dx: i128 = a.x as i128 - b.x as i128;
    let dy: i128 = a.y as i128 - b.y as i128;
    assert(0 <= dx * dx <= 0x1_0000_0000_0000_0000) by (nonlinear_arith)
        requires
            -0x1_0000_0000 <= dx <= 0x1_0000_0000,
    ;
    assert(0 <= dy * dy <= 0x1_0000_0000_0000_0000) by (nonlinear_arith)
        requires
            -0x1_0000_0000 <= dy <= 0x1_0000_0000,
    ;
    (dx * dx + dy * dy) as u128
}

} // verus!

verus! {

/// The bound within which coordinates keep every offset and rotation of the
/// placement templates inside `i32`.
pub open spec fn in_bounds(p: Point) -> bool {
    -0x4000_0000 < p.x < 0x4000_0000 && -0x4000_0000 < p.y < 0x4000_0000
}

/// Coordinates that stay within [`in_bounds`] after rounding to whole units.
pub open spec fn in_rounding_bounds(p: Point) -> bool {
    -0x3FFF_0000 < p.x < 0x3FFF_0000 && -0x3FFF_0000 < p.y < 0x3FFF_0000
}

/// The vector turned by a quarter turn: clockwise `(y, -x)`, otherwise `(-y, x)`.
pub open spec fn rotated90(p: Point, clockwise: bool) -> Point {
    if clockwise {
        Point { x: p.y, y: (-p.x) as i32 }
    } else {
        Point { x: (-p.y) as i32, y: p.x }
    }
}

/// A coordinate rounded to whole map units the way `(v + 0.5) as i32` does:
/// half a unit is added, then the value is cut towards zero.
pub open spec fn rounded_coord(v: int) -> int {
    let t = v + 128;
    (if t >= 0 { t / 256 } else { -((-t) / 256) }) * 256
}

impl Point {
    /// Turns the vector by a quarter turn.
    pub fn rotate90(self, clockwise: bool) -> (p: Point)
        requires
            self.x != i32::MIN,
            self.y != i32::MIN,
        ensures
            p == rotated90(self, clockwise),
    {
        if clockwise {
            Point { x: self.y, y: -self.x }
        } else {
            Point { x: -self.y, y: self.x }
        }
    }

    /// Componentwise sum.
    pub fn plus(self, other: Point) -> (p: Point)
        requires
            i32::MIN <= self.x + other.x <= i32::MAX,
            i32::MIN <= self.y + other.y <= i32::MAX,
        ensures
            p.x == self.x + other.x,
            p.y == self.y + other.y,
    {
        Point { x: self.x + other.x, y: self.y + other.y }
    }

    /// The point rounded to whole map units.
    pub fn round(self) -> (p: Point)
        requires
            in_bounds(self),
        ensures
            p.x == rounded_coord(self.x as int),
            p.y == rounded_coord(self.y as int),
            self.x - 384 <= p.x <= self.x + 384,
            self.y - 384 <= p.y <= self.y + 384,
    {
        let tx: i32 = self.x + 128;
        let ty: i32 = self.y + 128;
        assert(tx - 255 <= (tx / 256) * 256 <= tx + 255) by (nonlinear_arith)
            requires
                -0x5000_0000 <= tx <= 0x5000_0000,
        ;
        assert(ty - 255 <= (ty / 256) * 256 <= ty + 255) by (nonlinear_arith)
            requires
                -0x5000_0000 <= ty <= 0x5000_0000,
        ;
        Point { x: (tx / 256) * 256, y: (ty / 256) * 256 }
    }
}

} // verus!

verus! {

/// `r` is the whole square root of `n`, rounded down.
pub open spec fn is_floor_sqrt(n: int, r: int) -> bool {
    0 <= r && r * r <= n && n < (r + 1) * (r + 1)
}

/// The whole square root of `n`, rounded down.
pub open spec fn floor_sqrt(n: nat) -> nat {
    choose|r: nat| is_floor_sqrt(n as int, r as int)
}

/// A number has one rounded-down square root.
pub proof fn lemma_floor_sqrt_unique(n: nat, r: nat)
    requires
        is_floor_sqrt(n as int, r as int),
    ensures
        floor_sqrt(n) == r,
{
    let s = floor_sqrt(n);
    assert(is_floor_sqrt(n as int, s as int));
    if s < r {
        assert((s + 1) * (s + 1) <= r * r) by (nonlinear_arith)
            requires
                s + 1 <= r,
                0 <= s,
        ;
    } else if r < s {
        assert((r + 1) * (r + 1) <= s * s) by (nonlinear_arith)
            requires
                r + 1 <= s,
                0 <= r,
        ;
    }
}

/// The whole square root of `n`, rounded down.
pub fn isqrt(n: u128) -> (r: u64)
    requires
        n < 0x4_0000_0000_0000_0000,
    ensures
        r == floor_sqrt(n as nat),
        is_floor_sqrt(n as int, r as int),
        r < 0x2_0000_0000,
{
    let mut lo: u128 = 0;
    let mut hi: u128 = 0x2_0000_0000;
    assert(hi * hi == 0x4_0000_0000_0000_0000) by (nonlinear_arith)
        requires
            hi == 0x2_0000_0000,
    ;
    while hi - lo > 1
        invariant
            lo < hi <= 0x2_0000_0000,
            lo * lo <= n,
            n < hi * hi,
        decreases hi - lo,
    {
        let mid: u128 = lo + (hi - lo) / 2;
        assert(mid * mid <= 0x4_0000_0000_0000_0000) by (nonlinear_arith)
            requires
                mid <= 0x2_0000_0000,
        ;
        if mid * mid <= n {
            lo = mid;
        } else {
            hi = mid;
        }
    }
    assert(hi == lo + 1);
    proof { lemma_floor_sqrt_unique(n as nat, lo as nat); }
    lo as u64
}

/// `p / q` cut towards zero, for positive `q`.
pub open spec fn quotient_toward_zero(p: int, q: int) -> int {
    if p >= 0 { p / q } else { -((-p) / q) }
}

/// The point `num / den` map units from `a` towards `b` (a unit being
/// `POINT_SCALE` steps), each coordinate cut towards zero; `a` itself when
/// the two points are less than one step apart.
pub open spec fn towards_point(a: Point, b: Point, num: int, den: int) -> Point {
    let r = floor_sqrt(dist2(a, b) as nat) as int;
    if r == 0 {
        a
    } else {
        Point {
            x: (a.x + quotient_toward_zero((b.x - a.x) * num, den * r)) as i32,
            y: (a.y + quotient_toward_zero((b.y - a.y) * num, den * r)) as i32,
        }
    }
}

proof fn lemma_step_bounded(d: int, r: int, num: int, den: int)
    requires
        d * d < (r + 1) * (r + 1),
        1 <= r,
        0 <= num <= 0x10000,
        1 <= den <= 0x10000,
        -0x2_0000_0000 <= d <= 0x2_0000_0000,
    ensures
        -num <= quotient_toward_zero(d * num, den * r) <= num,
{
    assert(1 <= den * r) by (nonlinear_arith)
        requires
            1 <= den,
            1 <= r,
    ;
    assert(-r <= d <= r) by (nonlinear_arith)
        requires
            d * d < (r + 1) * (r + 1),
            1 <= r,
    ;
    if d >= 0 {
        assert(d * num <= r * num) by (nonlinear_arith)
            requires
                0 <= d <= r,
                0 <= num,
        ;
        assert((d * num) / (den * r) <= num) by (nonlinear_arith)
            requires
                0 <= d * num <= r * num,
                1 <= den,
                1 <= r,
                0 <= num,
        ;
        assert(0 <= (d * num) / (den * r)) by (nonlinear_arith)
            requires
                0 <= d * num,
                1 <= den * r,
        ;
    } else {
        assert((-d) * num <= r * num) by (nonlinear_arith)
            requires
                0 <= -d <= r,
                0 <= num,
        ;
        assert(-(d * num) == (-d) * num) by (nonlinear_arith);
        assert(((-d) * num) / (den * r) <= num) by (nonlinear_arith)
            requires
                0 <= (-d) * num <= r * num,
                1 <= den,
                1 <= r,
                0 <= num,
        ;
        assert(0 <= ((-d) * num) / (den * r)) by (nonlinear_arith)
            requires
                0 <= (-d) * num,
                1 <= den * r,
        ;
    }
}

impl Point {
    /// The point `num / den` map units from `self` towards `other`.
    pub fn towards(self, other: Point, num: i64, den: i64) -> (p: Point)
        requires
            in_bounds(self),
            0 <= num <= 0x10000,
            1 <= den <= 0x10000,
        ensures
            p == towards_point(self, other, num as int, den as int),
    {
        let d2 = distance_squared(&self, &other);
        let r = isqrt(d2);
        if r == 0 {
            return self;
        }
        let dx: i128 = other.x as i128 - self.x as i128;
        let dy: i128 = other.y as i128 - self.y as i128;
        assert(den * r <= 0x10000 * 0x2_0000_0000) by (nonlinear_arith)
            requires
                1 <= den <= 0x10000,
                1 <= r <= 0x2_0000_0000,
        ;
        let q: i128 = den as i128 * r as i128;
        proof {
            assert(d2 == dx * dx + dy * dy) by (nonlinear_arith)
                requires
                    d2 == (self.x - other.x) * (self.x - other.x) + (self.y - other.y) * (self.y - other.y),
                    dx == other.x - self.x,
                    dy == other.y - self.y,
            ;
            assert(dx * dx <= d2 && dy * dy <= d2) by (nonlinear_arith)
                requires
                    d2 == dx * dx + dy * dy,
            ;
            lemma_step_bounded(dx as int, r as int, num as int, den as int);
            lemma_step_bounded(dy as int, r as int, num as int, den as int);
            assert(-0x2_0000_0000 * 0x10000 <= dx * num <= 0x2_0000_0000 * 0x10000) by (nonlinear_arith)
                requires
                    -0x2_0000_0000 <= dx <= 0x2_0000_0000,
                    0 <= num <= 0x10000,
            ;
            assert(-0x2_0000_0000 * 0x10000 <= dy * num <= 0x2_0000_0000 * 0x10000) by (nonlinear_arith)
                requires
                    -0x2_0000_0000 <= dy <= 0x2_0000_0000,
                    0 <= num <= 0x10000,
            ;
            assert(1 <= den * r <= 0x10000 * 0x2_0000_0000) by (nonlinear_arith)
                requires
                    1 <= den <= 0x10000,
                    1 <= r <= 0x2_0000_0000,
            ;
        }
        let px: i128 = dx * num as i128;
        let py: i128 = dy * num as i128;
        let ox: i128 = if px >= 0 { px / q } else { -((-px) / q) };
        let oy: i128 = if py >= 0 { py / q } else { -((-py) / q) };
        Point { x: (self.x as i128 + ox) as i32, y: (self.y as i128 + oy) as i32 }
    }
}

impl crate::keyed::Key for Point {
    fn same_key(&self, other: &Self) -> (b: bool) {
        self.x == other.x && self.y == other.y
    }
}

/// Whether a position lies within the bounds the fixed-point arithmetic
/// here works in.
pub fn within_bounds(p: Point) -> (b: bool)
    ensures
        b == in_bounds(p),
{
    -0x4000_0000 < p.x && p.x < 0x4000_0000 && -0x4000_0000 < p.y && p.y < 0x4000_0000
}

/// Whether a position stays within those bounds after rounding to whole units.
pub fn within_rounding_bounds(p: Point) -> (b: bool)
    ensures
        b == in_rounding_bounds(p),
{
    -0x3FFF_0000 < p.x && p.x < 0x3FFF_0000 && -0x3FFF_0000 < p.y && p.y < 0x3FFF_0000
}

} // verus!
