//! Fixed-point geometry: vectors, angles, oriented rectangles and the
//! edge-intersection collision tests built on them.

use vstd::prelude::*;

verus! {

/// Number of fixed-point units in one pixel.
pub const UNIT: i32 = 1000;

/// The `i32` that is nearest to `v`.
pub open spec fn clamp_i32(v: int) -> int {
    if v < i32::MIN as int {
        i32::MIN as int
    } else if v > i32::MAX as int {
        i32::MAX as int
    } else {
        v
    }
}

/// Division that rounds toward zero, as hardware division does.
pub open spec fn div_trunc(a: int, b: int) -> int
    recommends
        b > 0,
{
    if a >= 0 {
        a / b
    } else {
        -((-a) / b)
    }
}

/// The integer square root: the largest `r` with `r * r <= n`.
pub open spec fn isqrt(n: nat) -> nat
    decreases n,
{
    if n == 0 {
        0
    } else {
        let r = isqrt((n - 1) as nat);
        if (r + 1) * (r + 1) <= n {
            r + 1
        } else {
            r
        }
    }
}

/// `isqrt(n)` is the one number whose square is at most `n` while the next
/// square is above it.
pub proof fn lemma_isqrt_bounds(n: nat)
    ensures
        isqrt(n) * isqrt(n) <= n,
        n < (isqrt(n) + 1) * (isqrt(n) + 1),
    decreases n,
{
    if n == 0 {
        assert(isqrt(n) == 0);
        assert(0 * 0 == 0 && 1 * 1 == 1) by (nonlinear_arith);
    } else {
        lemma_isqrt_bounds((n - 1) as nat);
        let r = isqrt((n - 1) as nat);
        assert((r + 1) * (r + 1) == r * r + 2 * r + 1) by (nonlinear_arith);
        assert((r + 2) * (r + 2) == r * r + 4 * r + 4) by (nonlinear_arith);
        if (r + 1) * (r + 1) <= n {
            assert(isqrt(n) == r + 1);
            assert((isqrt(n) + 1) * (isqrt(n) + 1) == (r + 2) * (r + 2));
        } else {
            assert(isqrt(n) == r);
        }
    }
}

/// Any `r` that brackets `n` between two consecutive squares is `isqrt(n)`.
pub proof fn lemma_isqrt_unique(n: nat, r: nat)
    requires
        r * r <= n,
        n < (r + 1) * (r + 1),
    ensures
        r == isqrt(n),
{
    lemma_isqrt_bounds(n);
    let s = isqrt(n);
    if r < s {
        assert((r + 1) * (r + 1) <= s * s) by (nonlinear_arith)
            requires
                r + 1 <= s,
        ;
    } else if s < r {
        assert((s + 1) * (s + 1) <= r * r) by (nonlinear_arith)
            requires
                s + 1 <= r,
        ;
    }
}

/// Narrows `v` to the `i32` range, saturating at both ends.
pub fn saturate(v: i64) -> (r: i32)
    ensures
        r as int == clamp_i32(v as int),
{
    if v < i32::MIN as i64 {
        i32::MIN
    } else if v > i32::MAX as i64 {
        i32::MAX
    } else {
        v as i32
    }
}

/// Quotient of `a` by a positive `d`, rounded toward negative infinity.
pub fn floor_div(a: i32, d: i32) -> (q: i32)
    requires
        d > 0,
    ensures
        q as int == a as int / d as int,
{
    if a >= 0 {
        a / d
    } else {
        let m: i64 = -(a as i64) - 1;
        let q: i64 = -(m / (d as i64)) - 1;
        assert(q == a as int / d as int) by (nonlinear_arith)
            requires
                a < 0,
                d > 0,
                m == -(a as int) - 1,
                q == -(m as int / d as int) - 1,
        ;
        q as i32
    }
}

/// Quotient of `a` by a positive `d`, rounded toward zero.
pub fn trunc_div(a: i64, d: i64) -> (q: i64)
    requires
        d > 0,
        a > i64::MIN,
    ensures
        q as int == div_trunc(a as int, d as int),
{
    if a >= 0 {
        a / d
    } else {
        let m: i64 = -a;
        let q: i64 = m / d;
        -q
    }
}

/// Computes the integer square root of `n` by bisection.
pub fn integer_sqrt(n: u128) -> (r: u64)
    requires
        n < 0x40_0000_0000_0000_0000_0000,
    ensures
        r as nat == isqrt(n as nat),
        r < 0x800_0000_0000,
{
    let mut lo: u128 = 0;
    let mut hi: u128 = 0x800_0000_0000;
    assert(0x800_0000_0000u128 * 0x800_0000_0000u128 == 0x40_0000_0000_0000_0000_0000u128) by (nonlinear_arith);
    while hi - lo > 1
        invariant
            lo < hi <= 0x800_0000_0000,
            lo * lo <= n,
            n < hi * hi,
        decreases hi - lo,
    {
        let mid: u128 = lo + (hi - lo) / 2;
        assert(mid * mid < 0x40_0000_0000_0000_0000_0000u128) by (nonlinear_arith)
            requires
                mid < 0x800_0000_0000u128,
        ;
        if mid * mid <= n {
            lo = mid;
        } else {
            hi = mid;
        }
    }
    proof {
        lemma_isqrt_unique(n as nat, lo as nat);
    }
    lo as u64
}

/// A point or displacement in the world, in fixed-point units.
#[derive(Clone, Copy, Debug, PartialEq, Eq, Structural)]
pub struct Vec2 {
    pub x: i32,
    pub y: i32,
}

impl Vec2 {
    /// The point reached from `self` by the displacement `(dx, dy)`; each
    /// coordinate stops at the end of the `i32` range.
    pub open spec fn moved(self, dx: int, dy: int) -> Vec2 {
        Vec2 { x: clamp_i32(self.x + dx) as i32, y: clamp_i32(self.y + dy) as i32 }
    }

    pub fn new(x: i32, y: i32) -> (v: Vec2)
        ensures
            v == (Vec2 { x, y }),
    {
        Vec2 { x, y }
    }

    pub fn zero() -> (v: Vec2)
        ensures
            v == (Vec2 { x: 0, y: 0 }),
    {
        Vec2 { x: 0, y: 0 }
    }

    /// A vector with both coordinates equal to `v`.
    pub fn splat(v: i32) -> (r: Vec2)
        ensures
            r == (Vec2 { x: v, y: v }),
    {
        Vec2 { x: v, y: v }
    }

    /// Saturating sum of two vectors.
    pub fn plus(self, other: Vec2) -> (r: Vec2)
        ensures
            r == self.moved(other.x as int, other.y as int),
    {
        Vec2 {
            x: saturate(self.x as i64 + other.x as i64),
            y: saturate(self.y as i64 + other.y as i64),
        }
    }

    /// Saturating difference of two vectors.
    pub fn minus(self, other: Vec2) -> (r: Vec2)
        ensures
            r == self.moved(-(other.x as int), -(other.y as int)),
    {
        Vec2 {
            x: saturate(self.x as i64 - other.x as i64),
            y: saturate(self.y as i64 - other.y as i64),
        }
    }

    /// The vector with each coordinate multiplied by `num / den`, rounded
    /// toward zero.
    pub open spec fn scaled_spec(self, num: int, den: int) -> Vec2 {
        Vec2 {
            x: clamp_i32(div_trunc(self.x * num, den)) as i32,
            y: clamp_i32(div_trunc(self.y * num, den)) as i32,
        }
    }

    pub fn scaled(self, num: i32, den: i32) -> (r: Vec2)
        requires
            den > 0,
        ensures
            r == self.scaled_spec(num as int, den as int),
    {
        assert(-0x4000_0000_0000_0000 <= self.x * num <= 0x4000_0000_0000_0000) by (nonlinear_arith)
            requires
                -0x8000_0000 <= self.x < 0x8000_0000,
                -0x8000_0000 <= num < 0x8000_0000,
        ;
        assert(-0x4000_0000_0000_0000 <= self.y * num <= 0x4000_0000_0000_0000) by (nonlinear_arith)
            requires
                -0x8000_0000 <= self.y < 0x8000_0000,
                -0x8000_0000 <= num < 0x8000_0000,
        ;
        let qx: i64 = trunc_div(self.x as i64 * num as i64, den as i64);
        let qy: i64 = trunc_div(self.y as i64 * num as i64, den as i64);
        Vec2 { x: saturate(qx), y: saturate(qy) }
    }

    /// The squared length of `self - other`.
    pub open spec fn distance_squared_spec(self, other: Vec2) -> int {
        (self.x - other.x) * (self.x - other.x) + (self.y - other.y) * (self.y - other.y)
    }

    /// The distance between two points, rounded down to a whole unit.
    pub open spec fn distance_spec(self, other: Vec2) -> nat {
        isqrt(self.distance_squared_spec(other) as nat)
    }

    pub fn distance(self, other: Vec2) -> (d: u64)
        ensures
            d as nat == self.distance_spec(other),
    {
        let dx: i64 = self.x as i64 - other.x as i64;
        let dy: i64 = self.y as i64 - other.y as i64;
        let sq: u128 = square_sum(dx, dy);
        integer_sqrt(sq)
    }
}

/// `dx * dx + dy * dy` for two differences of `i32` values.
pub fn square_sum(dx: i64, dy: i64) -> (s: u128)
    requires
        -0x1_0000_0000 < dx < 0x1_0000_0000,
        -0x1_0000_0000 < dy < 0x1_0000_0000,
    ensures
        s as int == dx * dx + dy * dy,
        s < 0x2_0000_0000_0000_0000,
{
    let ax: u128 = if dx < 0 { (-dx) as u128 } else { dx as u128 };
    let ay: u128 = if dy < 0 { (-dy) as u128 } else { dy as u128 };
    assert(ax * ax < 0x1_0000_0000_0000_0000 && ax * ax == dx * dx) by (nonlinear_arith)
        requires
            ax < 0x1_0000_0000,
            ax == dx || ax == -dx,
    ;
    assert(ay * ay < 0x1_0000_0000_0000_0000 && ay * ay == dy * dy) by (nonlinear_arith)
        requires
            ay < 0x1_0000_0000,
            ay == dy || ay == -dy,
    ;
    ax * ax + ay * ay
}

/// A direction, held as a vector of length `UNIT` (up to rounding): `cos` and
/// `sin` are the cosine and the sine of the angle, scaled by `UNIT`.
#[derive(Clone, Copy, Debug, PartialEq, Eq, Structural)]
pub struct Angle {
    cos: i32,
    sin: i32,
}

/// The square of `UNIT`.
pub const UNIT_SQUARED: i64 = 1000000;

/// The length of the vector `(dx, dy)` in thousandths, rounded down.
pub open spec fn length_milli(dx: int, dy: int) -> int {
    isqrt(((dx * dx + dy * dy) * UNIT_SQUARED) as nat) as int
}

/// The direction of the vector `(dx, dy)`: the vector scaled to the length
/// `UNIT`, each component rounded toward zero. The zero vector points along
/// +x.
pub open spec fn normalized(dx: int, dy: int) -> (int, int) {
    if dx == 0 && dy == 0 {
        (UNIT as int, 0)
    } else {
        (
            div_trunc(dx * UNIT_SQUARED, length_milli(dx, dy)),
            div_trunc(dy * UNIT_SQUARED, length_milli(dx, dy)),
        )
    }
}

/// A vector is at least as long as each of its components.
pub proof fn lemma_component_le_length(dx: int, dy: int)
    ensures
        dx * UNIT <= length_milli(dx, dy),
        -dx * UNIT <= length_milli(dx, dy),
        dy * UNIT <= length_milli(dx, dy),
        -dy * UNIT <= length_milli(dx, dy),
{
    assert(dx * dx >= 0 && dy * dy >= 0) by (nonlinear_arith);
    let n = ((dx * dx + dy * dy) * UNIT_SQUARED) as nat;
    assert((dx * dx + dy * dy) * 1000000 >= 0) by (nonlinear_arith)
        requires
            dx * dx + dy * dy >= 0,
    ;
    let r = isqrt(n) as int;
    lemma_isqrt_bounds(n);
    lemma_square_below(dx * 1000, r, n as int, dx, dy, true);
    lemma_square_below(-dx * 1000, r, n as int, dx, dy, true);
    lemma_square_below(dy * 1000, r, n as int, dx, dy, false);
    lemma_square_below(-dy * 1000, r, n as int, dx, dy, false);
}

proof fn lemma_square_below(c: int, r: int, n: int, dx: int, dy: int, first: bool)
    requires
        0 <= r,
        n < (r + 1) * (r + 1),
        n == (dx * dx + dy * dy) * 1000000,
        first ==> c == dx * 1000 || c == -dx * 1000,
        !first ==> c == dy * 1000 || c == -dy * 1000,
    ensures
        c <= r,
{
    if c > r {
        assert((r + 1) * (r + 1) <= c * c) by (nonlinear_arith)
            requires
                0 <= r,
                r + 1 <= c,
        ;
        assert(c * c <= (dx * dx + dy * dy) * 1000000) by (nonlinear_arith)
            requires
                first ==> c == dx * 1000 || c == -dx * 1000,
                !first ==> c == dy * 1000 || c == -dy * 1000,
        ;
    }
}

/// Both components of a normalized vector lie within `[-UNIT, UNIT]`.
pub proof fn lemma_normalized_bounds(dx: int, dy: int)
    ensures
        -UNIT <= normalized(dx, dy).0 <= UNIT,
        -UNIT <= normalized(dx, dy).1 <= UNIT,
{
    if !(dx == 0 && dy == 0) {
        let len = length_milli(dx, dy);
        lemma_component_le_length(dx, dy);
        assert(len >= 1) by {
            if dx != 0 {
                assert(dx * 1000 >= 1 || -dx * 1000 >= 1);
            } else {
                assert(dy * 1000 >= 1 || -dy * 1000 >= 1);
            }
        }
        lemma_scaled_quotient_bound(dx, len);
        lemma_scaled_quotient_bound(dy, len);
    }
}

proof fn lemma_scaled_quotient_bound(d: int, len: int)
    requires
        len >= 1,
        -len <= d * 1000 <= len,
    ensures
        -UNIT <= div_trunc(d * UNIT_SQUARED, len) <= UNIT,
{
    if d >= 0 {
        assert(0 <= (d * 1000000) / len <= 1000) by (nonlinear_arith)
            requires
                len >= 1,
                0 <= d * 1000 <= len,
        ;
    } else {
        assert(0 <= ((-d) * 1000000) / len <= 1000) by (nonlinear_arith)
            requires
                len >= 1,
                0 <= (-d) * 1000 <= len,
        ;
        assert(-(d * UNIT_SQUARED) == (-d) * 1000000) by (nonlinear_arith);
    }
}

impl Angle {
    #[verifier::type_invariant]
    pub closed spec fn in_range(self) -> bool {
        -UNIT <= self.cos <= UNIT && -UNIT <= self.sin <= UNIT
    }

    /// The cosine, scaled by `UNIT`.
    pub closed spec fn cos_spec(self) -> int {
        self.cos as int
    }

    /// The sine, scaled by `UNIT`.
    pub closed spec fn sin_spec(self) -> int {
        self.sin as int
    }

    /// The angle with the given cosine and sine, both scaled by `UNIT`.
    pub closed spec fn from_parts(cos: int, sin: int) -> Angle {
        Angle { cos: cos as i32, sin: sin as i32 }
    }

    /// The direction of the vector `(dx, dy)` as an angle.
    pub open spec fn direction_of(dx: int, dy: int) -> Angle {
        Angle::from_parts(normalized(dx, dy).0, normalized(dx, dy).1)
    }

    /// An angle is made of its parts.
    pub proof fn lemma_from_parts(a: Angle)
        ensures
            a == Angle::from_parts(a.cos_spec(), a.sin_spec()),
    {
    }

    /// The angle zero: the direction of the positive x axis.
    pub closed spec fn zero_spec() -> Angle {
        Angle { cos: UNIT, sin: 0 }
    }

    pub fn zero() -> (a: Angle)
        ensures
            a == Angle::zero_spec(),
            a.cos_spec() == UNIT,
            a.sin_spec() == 0,
    {
        Angle { cos: UNIT, sin: 0 }
    }

    /// The angle with the given cosine and sine, both scaled by `UNIT`;
    /// a part outside the range of a cosine is brought to its nearer end.
    /// An angle is got back from its own parts as it was.
    pub fn from_scaled(cos: i32, sin: i32) -> (a: Angle)
        ensures
            a == Angle::from_parts(
                max(-UNIT as int, min(UNIT as int, cos as int)),
                max(-UNIT as int, min(UNIT as int, sin as int)),
            ),
            a.cos_spec() == max(-UNIT as int, min(UNIT as int, cos as int)),
            a.sin_spec() == max(-UNIT as int, min(UNIT as int, sin as int)),
    {
        let c: i32 = if cos < -UNIT {
            -UNIT
        } else if cos > UNIT {
            UNIT
        } else {
            cos
        };
        let s: i32 = if sin < -UNIT {
            -UNIT
        } else if sin > UNIT {
            UNIT
        } else {
            sin
        };
        Angle { cos: c, sin: s }
    }

    /// The direction of the vector `(x, y)`. Any input is accepted and
    /// normalized; the zero vector gives the angle zero.
    pub fn from_vector(x: i32, y: i32) -> (a: Angle)
        ensures
            (a.cos_spec(), a.sin_spec()) == normalized(x as int, y as int),
            a == Angle::direction_of(x as int, y as int),
    {
        Angle::normalize(x as i64, y as i64)
    }

    pub(crate) fn normalize(dx: i64, dy: i64) -> (a: Angle)
        requires
            -0x1_0000_0000 < dx < 0x1_0000_0000,
            -0x1_0000_0000 < dy < 0x1_0000_0000,
        ensures
            (a.cos_spec(), a.sin_spec()) == normalized(dx as int, dy as int),
            a == Angle::direction_of(dx as int, dy as int),
    {
        if dx == 0 && dy == 0 {
            return Angle { cos: UNIT, sin: 0 };
        }
        let sq: u128 = square_sum(dx, dy);
        assert(sq * 1000000 < 0x40_0000_0000_0000_0000_0000) by (nonlinear_arith)
            requires
                sq < 0x2_0000_0000_0000_0000,
        ;
        let len: u64 = integer_sqrt(sq * 1000000);
        proof {
            lemma_normalized_bounds(dx as int, dy as int);
            lemma_component_le_length(dx as int, dy as int);
            assert(len >= 1) by {
                if dx != 0 {
                    assert(dx * 1000 >= 1 || -dx * 1000 >= 1);
                } else {
                    assert(dy * 1000 >= 1 || -dy * 1000 >= 1);
                }
            }
            assert(-0x10_0000_0000_0000 < dx * 1000000 < 0x10_0000_0000_0000) by (nonlinear_arith)
                requires
                    -0x1_0000_0000 < dx < 0x1_0000_0000,
            ;
            assert(-0x10_0000_0000_0000 < dy * 1000000 < 0x10_0000_0000_0000) by (nonlinear_arith)
                requires
                    -0x1_0000_0000 < dy < 0x1_0000_0000,
            ;
        }
        let c: i64 = trunc_div(dx * UNIT_SQUARED, len as i64);
        let s: i64 = trunc_div(dy * UNIT_SQUARED, len as i64);
        Angle { cos: c as i32, sin: s as i32 }
    }

    pub fn cos(&self) -> (c: i32)
        ensures
            c == self.cos_spec(),
            -UNIT <= c <= UNIT,
    {
        proof {
            use_type_invariant(self);
        }
        self.cos
    }

    pub fn sin(&self) -> (s: i32)
        ensures
            s == self.sin_spec(),
            -UNIT <= s <= UNIT,
    {
        proof {
            use_type_invariant(self);
        }
        self.sin
    }

    /// The displacement of `length` units along this direction.
    pub open spec fn step_spec(self, length: int) -> Vec2 {
        Vec2 {
            x: clamp_i32(div_trunc(self.cos_spec() * length, UNIT as int)) as i32,
            y: clamp_i32(div_trunc(self.sin_spec() * length, UNIT as int)) as i32,
        }
    }

    pub fn step(&self, length: i32) -> (v: Vec2)
        ensures
            v == self.step_spec(length as int),
    {
        let c: i64 = self.cos() as i64;
        let s: i64 = self.sin() as i64;
        assert(-0x7d0_0000_0000 <= c * length <= 0x7d0_0000_0000) by (nonlinear_arith)
            requires
                -1000 <= c <= 1000,
                -0x8000_0000 <= length < 0x8000_0000,
        ;
        assert(-0x7d0_0000_0000 <= s * length <= 0x7d0_0000_0000) by (nonlinear_arith)
            requires
                -1000 <= s <= 1000,
                -0x8000_0000 <= length < 0x8000_0000,
        ;
        Vec2 {
            x: saturate(trunc_div(c * (length as i64), UNIT as i64)),
            y: saturate(trunc_div(s * (length as i64), UNIT as i64)),
        }
    }

    /// The direction obtained by turning `self` by the angle `by`
    /// (the product of the two as complex numbers, normalized again).
    pub open spec fn rotated_spec(self, by: Angle) -> (int, int) {
        normalized(
            self.cos_spec() * by.cos_spec() - self.sin_spec() * by.sin_spec(),
            self.sin_spec() * by.cos_spec() + self.cos_spec() * by.sin_spec(),
        )
    }

    pub fn rotated(&self, by: &Angle) -> (a: Angle)
        ensures
            (a.cos_spec(), a.sin_spec()) == self.rotated_spec(*by),
            a == Angle::from_parts(self.rotated_spec(*by).0, self.rotated_spec(*by).1),
    {
        let c: i64 = self.cos() as i64;
        let s: i64 = self.sin() as i64;
        let bc: i64 = by.cos() as i64;
        let bs: i64 = by.sin() as i64;
        assert(-1000000 <= c * bc <= 1000000 && -1000000 <= s * bs <= 1000000 && -1000000 <= s
            * bc <= 1000000 && -1000000 <= c * bs <= 1000000) by (nonlinear_arith)
            requires
                -1000 <= c <= 1000,
                -1000 <= s <= 1000,
                -1000 <= bc <= 1000,
                -1000 <= bs <= 1000,
        ;
        Angle::normalize(c * bc - s * bs, s * bc + c * bs)
    }

    /// The opposite direction.
    pub fn reversed(&self) -> (a: Angle)
        ensures
            a.cos_spec() == -self.cos_spec(),
            a.sin_spec() == -self.sin_spec(),
    {
        let c: i32 = self.cos();
        let s: i32 = self.sin();
        Angle { cos: -c, sin: -s }
    }

    /// The direction with the x component negated when `flip_x` holds and the
    /// y component negated when `flip_y` holds: a reflection off a wall.
    pub fn reflected(&self, flip_x: bool, flip_y: bool) -> (a: Angle)
        ensures
            a.cos_spec() == if flip_x { -self.cos_spec() } else { self.cos_spec() },
            a.sin_spec() == if flip_y { -self.sin_spec() } else { self.sin_spec() },
    {
        let c: i32 = self.cos();
        let s: i32 = self.sin();
        Angle { cos: if flip_x { -c } else { c }, sin: if flip_y { -s } else { s } }
    }
}

/// The direction in which `c` lies as seen from `e`.
pub fn get_angle(c: Vec2, e: Vec2) -> (a: Angle)
    ensures
        (a.cos_spec(), a.sin_spec()) == normalized(c.x - e.x, c.y - e.y),
        a == Angle::direction_of(c.x - e.x, c.y - e.y),
{
    Angle::normalize(c.x as i64 - e.x as i64, c.y as i64 - e.y as i64)
}

/// Whether the turn from `a` over `b` to `c` is counter-clockwise.
pub open spec fn ccw(ax: int, ay: int, bx: int, by: int, cx: int, cy: int) -> bool {
    (cy - ay) * (bx - ax) > (by - ay) * (cx - ax)
}

/// The orientation test for segment intersection: the ends of each segment
/// lie on different sides of the other. Segments on one line never cross.
pub open spec fn segments_cross(
    a1x: int,
    a1y: int,
    a2x: int,
    a2y: int,
    b1x: int,
    b1y: int,
    b2x: int,
    b2y: int,
) -> bool {
    ccw(a1x, a1y, b1x, b1y, b2x, b2y) != ccw(a2x, a2y, b1x, b1y, b2x, b2y) && ccw(
        a1x,
        a1y,
        a2x,
        a2y,
        b1x,
        b1y,
    ) != ccw(a1x, a1y, a2x, a2y, b2x, b2y)
}

fn ccw_wide(ax: i64, ay: i64, bx: i64, by: i64, cx: i64, cy: i64) -> (r: bool)
    requires
        -0x4_0000_0000 <= ax <= 0x4_0000_0000,
        -0x4_0000_0000 <= ay <= 0x4_0000_0000,
        -0x4_0000_0000 <= bx <= 0x4_0000_0000,
        -0x4_0000_0000 <= by <= 0x4_0000_0000,
        -0x4_0000_0000 <= cx <= 0x4_0000_0000,
        -0x4_0000_0000 <= cy <= 0x4_0000_0000,
    ensures
        r == ccw(ax as int, ay as int, bx as int, by as int, cx as int, cy as int),
{
    let d1: i128 = (cy - ay) as i128;
    let d2: i128 = (bx - ax) as i128;
    let d3: i128 = (by - ay) as i128;
    let d4: i128 = (cx - ax) as i128;
    assert(-0x40_0000_0000_0000_0000 <= d1 * d2 <= 0x40_0000_0000_0000_0000) by (nonlinear_arith)
        requires
            -0x8_0000_0000 <= d1 <= 0x8_0000_0000,
            -0x8_0000_0000 <= d2 <= 0x8_0000_0000,
    ;
    assert(-0x40_0000_0000_0000_0000 <= d3 * d4 <= 0x40_0000_0000_0000_0000) by (nonlinear_arith)
        requires
            -0x8_0000_0000 <= d3 <= 0x8_0000_0000,
            -0x8_0000_0000 <= d4 <= 0x8_0000_0000,
    ;
    d1 * d2 > d3 * d4
}

fn cross_wide(
    a1x: i64,
    a1y: i64,
    a2x: i64,
    a2y: i64,
    b1x: i64,
    b1y: i64,
    b2x: i64,
    b2y: i64,
) -> (r: bool)
    requires
        -0x4_0000_0000 <= a1x <= 0x4_0000_0000,
        -0x4_0000_0000 <= a1y <= 0x4_0000_0000,
        -0x4_0000_0000 <= a2x <= 0x4_0000_0000,
        -0x4_0000_0000 <= a2y <= 0x4_0000_0000,
        -0x4_0000_0000 <= b1x <= 0x4_0000_0000,
        -0x4_0000_0000 <= b1y <= 0x4_0000_0000,
        -0x4_0000_0000 <= b2x <= 0x4_0000_0000,
        -0x4_0000_0000 <= b2y <= 0x4_0000_0000,
    ensures
        r == segments_cross(
            a1x as int,
            a1y as int,
            a2x as int,
            a2y as int,
            b1x as int,
            b1y as int,
            b2x as int,
            b2y as int,
        ),
{
    ccw_wide(a1x, a1y, b1x, b1y, b2x, b2y) != ccw_wide(a2x, a2y, b1x, b1y, b2x, b2y) && ccw_wide(
        a1x,
        a1y,
        a2x,
        a2y,
        b1x,
        b1y,
    ) != ccw_wide(a1x, a1y, a2x, a2y, b2x, b2y)
}

/// A segment between two points.
#[derive(Clone, Copy, Debug)]
pub struct Line {
    pub point1: Vec2,
    pub point2: Vec2,
}

impl Line {
    pub fn new(point1: Vec2, point2: Vec2) -> (l: Line)
        ensures
            l.point1 == point1,
            l.point2 == point2,
    {
        Line { point1, point2 }
    }

    /// Whether `self`, displaced by `(dx, dy)`, crosses `other`.
    pub open spec fn crosses(self, other: Line, dx: int, dy: int) -> bool {
        segments_cross(
            self.point1.x + dx,
            self.point1.y + dy,
            self.point2.x + dx,
            self.point2.y + dy,
            other.point1.x as int,
            other.point1.y as int,
            other.point2.x as int,
            other.point2.y as int,
        )
    }

    /// Whether the two segments cross.
    pub fn intersect(&self, line2: &Line) -> (r: bool)
        ensures
            r == self.crosses(*line2, 0, 0),
    {
        self.intersect_shifted(line2, Vec2 { x: 0, y: 0 })
    }

    /// Whether `self`, displaced by `distance`, crosses `line2`. The
    /// displaced ends are computed exactly, without saturation.
    pub fn intersect_shifted(&self, line2: &Line, distance: Vec2) -> (r: bool)
        ensures
            r == self.crosses(*line2, distance.x as int, distance.y as int),
    {
        cross_wide(
            self.point1.x as i64 + distance.x as i64,
            self.point1.y as i64 + distance.y as i64,
            self.point2.x as i64 + distance.x as i64,
            self.point2.y as i64 + distance.y as i64,
            line2.point1.x as i64,
            line2.point1.y as i64,
            line2.point2.x as i64,
            line2.point2.y as i64,
        )
    }
}

/// An oriented rectangle: its center and its four edges.
#[derive(Clone, Copy, Debug)]
pub struct Polygon {
    pub center: Vec2,
    pub lines: [Line; 4],
}

/// A pair of flags, one for each axis.
#[derive(Clone, Copy, Debug, PartialEq, Eq, Structural)]
pub struct BVec2 {
    pub x: bool,
    pub y: bool,
}

impl BVec2 {
    pub fn new(x: bool, y: bool) -> (b: BVec2)
        ensures
            b == (BVec2 { x, y }),
    {
        BVec2 { x, y }
    }

    /// Whether either flag is set.
    pub fn any(&self) -> (r: bool)
        ensures
            r == (self.x || self.y),
    {
        self.x || self.y
    }
}

/// The rectangle with the given center and half extents, turned by
/// `rotation` about its center. Each corner is the center plus or minus the
/// half extents carried along the rotated axes.
pub open spec fn easy_polygon_spec(center: Vec2, half_size: Vec2, rotation: Angle) -> Polygon {
    let xc = div_trunc(half_size.x * rotation.cos_spec(), UNIT as int);
    let xs = div_trunc(half_size.x * rotation.sin_spec(), UNIT as int);
    let yc = div_trunc(half_size.y * rotation.cos_spec(), UNIT as int);
    let ys = div_trunc(half_size.y * rotation.sin_spec(), UNIT as int);
    let corner1 = center.moved(-xc - ys, -xs + yc);
    let corner2 = center.moved(xc - ys, xs + yc);
    let corner3 = center.moved(-xc + ys, -xs - yc);
    let corner4 = center.moved(xc + ys, xs - yc);
    Polygon {
        center,
        lines: [
            Line { point1: corner1, point2: corner2 },
            Line { point1: corner3, point2: corner4 },
            Line { point1: corner2, point2: corner4 },
            Line { point1: corner1, point2: corner3 },
        ],
    }
}

pub fn easy_polygon(center: Vec2, half_size: Vec2, rotation: Angle) -> (p: Polygon)
    ensures
        p == easy_polygon_spec(center, half_size, rotation),
{
    let c: i64 = rotation.cos() as i64;
    let s: i64 = rotation.sin() as i64;
    let hx: i64 = half_size.x as i64;
    let hy: i64 = half_size.y as i64;
    assert(-0x7d0_0000_0000 <= hx * c <= 0x7d0_0000_0000 && -0x7d0_0000_0000 <= hx * s
        <= 0x7d0_0000_0000 && -0x7d0_0000_0000 <= hy * c <= 0x7d0_0000_0000 && -0x7d0_0000_0000
        <= hy * s <= 0x7d0_0000_0000) by (nonlinear_arith)
        requires
            -1000 <= c <= 1000,
            -1000 <= s <= 1000,
            -0x8000_0000 <= hx < 0x8000_0000,
            -0x8000_0000 <= hy < 0x8000_0000,
    ;
    let xc: i64 = trunc_div(hx * c, UNIT as i64);
    let xs: i64 = trunc_div(hx * s, UNIT as i64);
    let yc: i64 = trunc_div(hy * c, UNIT as i64);
    let ys: i64 = trunc_div(hy * s, UNIT as i64);
    proof {
        lemma_div_trunc_bound(hx * c, 0x7d0_0000_0000);
        lemma_div_trunc_bound(hx * s, 0x7d0_0000_0000);
        lemma_div_trunc_bound(hy * c, 0x7d0_0000_0000);
        lemma_div_trunc_bound(hy * s, 0x7d0_0000_0000);
    }
    let cx: i64 = center.x as i64;
    let cy: i64 = center.y as i64;
    let corner1 = Vec2 { x: saturate(cx - xc - ys), y: saturate(cy - xs + yc) };
    let corner2 = Vec2 { x: saturate(cx + xc - ys), y: saturate(cy + xs + yc) };
    let corner3 = Vec2 { x: saturate(cx - xc + ys), y: saturate(cy - xs - yc) };
    let corner4 = Vec2 { x: saturate(cx + xc + ys), y: saturate(cy + xs - yc) };
    let p = Polygon {
        center,
        lines: [
            Line { point1: corner1, point2: corner2 },
            Line { point1: corner3, point2: corner4 },
            Line { point1: corner2, point2: corner4 },
            Line { point1: corner1, point2: corner3 },
        ],
    };
    assert(p.lines =~= easy_polygon_spec(center, half_size, rotation).lines);
    p
}

proof fn lemma_div_trunc_bound(a: int, bound: int)
    requires
        -bound <= a <= bound,
    ensures
        -bound <= div_trunc(a, UNIT as int) <= bound,
{
    if a >= 0 {
        assert(0 <= a / 1000 <= a) by (nonlinear_arith)
            requires
                a >= 0,
        ;
    } else {
        assert(0 <= (-a) / 1000 <= -a) by (nonlinear_arith)
            requires
                -a >= 0,
        ;
    }
}

/// Anything that occupies an oriented rectangle in the world.
pub trait AsPolygon {
    /// The rectangle that `self` occupies.
    spec fn polygon(&self) -> Polygon;

    fn as_polygon(&self) -> (p: Polygon)
        ensures
            p == self.polygon(),
    ;

    fn center(&self) -> (c: Vec2)
        ensures
            c == self.polygon().center,
    {
        self.as_polygon().center
    }
}

impl AsPolygon for Polygon {
    open spec fn polygon(&self) -> Polygon {
        *self
    }

    fn as_polygon(&self) -> (p: Polygon) {
        *self
    }
}

impl Polygon {
    /// Whether some edge of `self`, displaced by `(dx, dy)`, crosses some
    /// edge of `other`. A rectangle that lies wholly inside another has no
    /// crossing edge and does not collide with it.
    pub open spec fn collides(self, other: Polygon, dx: int, dy: int) -> bool {
        exists|i: int, j: int|
            0 <= i < 4 && 0 <= j < 4 && #[trigger] self.lines[i].crosses(
                #[trigger] other.lines[j],
                dx,
                dy,
            )
    }

    /// How many edges of `self` the segment from `(px, py)` to
    /// `(px + reach, py)` crosses, counting the first `n` edges.
    pub open spec fn crossings(self, px: int, py: int, reach: int, n: nat) -> nat
        decreases n,
    {
        if n == 0 {
            0
        } else {
            let l = self.lines[n - 1];
            let hit = segments_cross(
                l.point1.x as int,
                l.point1.y as int,
                l.point2.x as int,
                l.point2.y as int,
                px,
                py,
                px + reach,
                py,
            );
            self.crossings(px, py, reach, (n - 1) as nat) + if hit {
                1nat
            } else {
                0nat
            }
        }
    }

    /// Whether `point` is inside `self`, by the parity of the edges that a
    /// ray of `RAY_LENGTH` units cast from `point` along +x crosses.
    pub open spec fn contains_point(self, point: Vec2) -> bool {
        self.crossings(point.x as int, point.y as int, RAY_LENGTH as int, 4) % 2 == 1
    }
}

/// Length of the ray that `point_in_polygon` casts.
pub const RAY_LENGTH: i32 = 1000000;

pub fn point_in_polygon<A: AsPolygon>(polygon: &A, point: Vec2) -> (r: bool)
    ensures
        r == polygon.polygon().contains_point(point),
{
    let poly = polygon.as_polygon();
    let mut count: u8 = 0;
    let mut i: usize = 0;
    while i < 4
        invariant
            i <= 4,
            count as nat == poly.crossings(point.x as int, point.y as int, RAY_LENGTH as int, i as nat),
            count <= i,
        decreases 4 - i,
    {
        let l = poly.lines[i];
        let hit = cross_wide(
            l.point1.x as i64,
            l.point1.y as i64,
            l.point2.x as i64,
            l.point2.y as i64,
            point.x as i64,
            point.y as i64,
            point.x as i64 + RAY_LENGTH as i64,
            point.y as i64,
        );
        if hit {
            count = count + 1;
        }
        i = i + 1;
    }
    count % 2 == 1
}

/// Whether `poly1`, moved by `distance`, collides with `poly2`.
pub fn aabb_collision<A: AsPolygon, B: AsPolygon>(poly1: &A, poly2: &B, distance: Vec2) -> (r: bool)
    ensures
        r == poly1.polygon().collides(poly2.polygon(), distance.x as int, distance.y as int),
{
    let p1 = poly1.as_polygon();
    let p2 = poly2.as_polygon();
    polygons_collide(&p1, &p2, distance)
}

/// `aabb_collision` on two rectangles that are already at hand.
pub fn polygons_collide(p1: &Polygon, p2: &Polygon, distance: Vec2) -> (r: bool)
    ensures
        r == p1.collides(*p2, distance.x as int, distance.y as int),
{
    let ghost dx = distance.x as int;
    let ghost dy = distance.y as int;
    let mut i: usize = 0;
    while i < 4
        invariant
            i <= 4,
            dx == distance.x,
            dy == distance.y,
            forall|a: int, b: int|
                0 <= a < i && 0 <= b < 4 ==> !(#[trigger] p1.lines[a].crosses(
                    #[trigger] p2.lines[b],
                    dx,
                    dy,
                )),
        decreases 4 - i,
    {
        let mut j: usize = 0;
        while j < 4
            invariant
                i < 4,
                j <= 4,
                dx == distance.x,
                dy == distance.y,
                forall|a: int, b: int|
                    0 <= a < i && 0 <= b < 4 ==> !(#[trigger] p1.lines[a].crosses(
                        #[trigger] p2.lines[b],
                        dx,
                        dy,
                    )),
                forall|b: int|
                    0 <= b < j ==> !p1.lines[i as int].crosses(#[trigger] p2.lines[b], dx, dy),
            decreases 4 - j,
        {
            if p1.lines[i].intersect_shifted(&p2.lines[j], distance) {
                return true;
            }
            j = j + 1;
        }
        i = i + 1;
    }
    false
}

/// The collision test along each axis on its own: `x` tells whether `aabb1`
/// moved by the x part of `distance` alone collides with `aabb2`, and `y` the
/// same for the y part.
pub fn aabb_collision_dir<A: AsPolygon, B: AsPolygon>(aabb1: &A, aabb2: &B, distance: Vec2) -> (r:
    BVec2)
    ensures
        r.x == aabb1.polygon().collides(aabb2.polygon(), distance.x as int, 0),
        r.y == aabb1.polygon().collides(aabb2.polygon(), 0, distance.y as int),
{
    let p1 = aabb1.as_polygon();
    let p2 = aabb2.as_polygon();
    BVec2 {
        x: polygons_collide(&p1, &p2, Vec2 { x: distance.x, y: 0 }),
        y: polygons_collide(&p1, &p2, Vec2 { x: 0, y: distance.y }),
    }
}

/// The orientation of three points does not change when they are named in
/// another cyclic order.
pub proof fn lemma_ccw_cyclic(ax: int, ay: int, bx: int, by: int, cx: int, cy: int)
    ensures
        ccw(ax, ay, bx, by, cx, cy) == ccw(bx, by, cx, cy, ax, ay),
{
    assert((cy - ay) * (bx - ax) - (by - ay) * (cx - ax) == (ay - by) * (cx - bx) - (cy - by) * (ax
        - bx)) by (nonlinear_arith);
}

/// Two segments cross in either order of naming them.
pub proof fn lemma_segments_cross_symmetric(
    a1x: int,
    a1y: int,
    a2x: int,
    a2y: int,
    b1x: int,
    b1y: int,
    b2x: int,
    b2y: int,
)
    ensures
        segments_cross(a1x, a1y, a2x, a2y, b1x, b1y, b2x, b2y) == segments_cross(
            b1x,
            b1y,
            b2x,
            b2y,
            a1x,
            a1y,
            a2x,
            a2y,
        ),
{
    lemma_ccw_cyclic(a1x, a1y, b1x, b1y, b2x, b2y);
    lemma_ccw_cyclic(a2x, a2y, b1x, b1y, b2x, b2y);
    lemma_ccw_cyclic(b1x, b1y, a1x, a1y, a2x, a2y);
    lemma_ccw_cyclic(b2x, b2y, a1x, a1y, a2x, a2y);
}

/// Moving both segments by the same displacement changes nothing.
pub proof fn lemma_segments_cross_translate(
    a1x: int,
    a1y: int,
    a2x: int,
    a2y: int,
    b1x: int,
    b1y: int,
    b2x: int,
    b2y: int,
    dx: int,
    dy: int,
)
    ensures
        segments_cross(a1x, a1y, a2x, a2y, b1x, b1y, b2x, b2y) == segments_cross(
            a1x + dx,
            a1y + dy,
            a2x + dx,
            a2y + dy,
            b1x + dx,
            b1y + dy,
            b2x + dx,
            b2y + dy,
        ),
{
    assert(forall|px: int, py: int, qx: int, qy: int, rx: int, ry: int|
        #![trigger ccw(px, py, qx, qy, rx, ry)]
        ccw(px, py, qx, qy, rx, ry) == ((ry - py) * (qx - px) > (qy - py) * (rx - px)));
    assert((b1y + dy) - (a1y + dy) == b1y - a1y);
}

/// One edge moved toward another crosses it exactly when the other, moved
/// the opposite way, crosses the first.
pub proof fn lemma_line_crosses_symmetric(a: Line, b: Line, dx: int, dy: int)
    ensures
        a.crosses(b, dx, dy) == b.crosses(a, -dx, -dy),
{
    lemma_segments_cross_symmetric(
        a.point1.x + dx,
        a.point1.y + dy,
        a.point2.x + dx,
        a.point2.y + dy,
        b.point1.x as int,
        b.point1.y as int,
        b.point2.x as int,
        b.point2.y as int,
    );
    lemma_segments_cross_translate(
        b.point1.x as int,
        b.point1.y as int,
        b.point2.x as int,
        b.point2.y as int,
        a.point1.x + dx,
        a.point1.y + dy,
        a.point2.x + dx,
        a.point2.y + dy,
        -dx,
        -dy,
    );
}

/// Collision is symmetric: `a` moved by a displacement collides with `b`
/// exactly when `b` moved by the opposite displacement collides with `a`.
pub proof fn lemma_collision_symmetric(a: Polygon, b: Polygon, dx: int, dy: int)
    ensures
        a.collides(b, dx, dy) == b.collides(a, -dx, -dy),
{
    assert forall|i: int, j: int| 0 <= i < 4 && 0 <= j < 4 implies #[trigger] a.lines[i].crosses(
        #[trigger] b.lines[j],
        dx,
        dy,
    ) == b.lines[j].crosses(a.lines[i], -dx, -dy) by {
        lemma_line_crosses_symmetric(a.lines[i], b.lines[j], dx, dy);
    }
    if a.collides(b, dx, dy) {
        let (i, j) = choose|i: int, j: int|
            0 <= i < 4 && 0 <= j < 4 && #[trigger] a.lines[i].crosses(#[trigger] b.lines[j], dx, dy);
        assert(b.lines[j].crosses(a.lines[i], -dx, -dy));
    }
    if b.collides(a, -dx, -dy) {
        let (j, i) = choose|j: int, i: int|
            0 <= j < 4 && 0 <= i < 4 && #[trigger] b.lines[j].crosses(
                #[trigger] a.lines[i],
                -dx,
                -dy,
            );
        lemma_line_crosses_symmetric(a.lines[i], b.lines[j], dx, dy);
        assert(a.lines[i].crosses(b.lines[j], dx, dy));
    }
}

/// The rectangle with the given center and half extents whose edges run
/// along the axes.
pub open spec fn upright(center: Vec2, half: Vec2) -> Polygon {
    easy_polygon_spec(center, half, Angle::zero_spec())
}

/// Whether the extents of two upright rectangles, the first moved by
/// `(dx, dy)`, meet along both axes.
pub open spec fn extents_meet(a: Vec2, ha: Vec2, b: Vec2, hb: Vec2, dx: int, dy: int) -> bool {
    abs(a.x + dx - b.x) <= ha.x + hb.x && abs(a.y + dy - b.y) <= ha.y + hb.y
}

/// Whether a side of the second rectangle lies strictly within the extent
/// of the first, moved by `(dx, dy)`, along x, while the top or the bottom
/// of the first lies strictly within the extent of the second along y.
pub open spec fn sides_cross(a: Vec2, ha: Vec2, b: Vec2, hb: Vec2, dx: int, dy: int) -> bool {
    &&& a.x + dx - ha.x < b.x - hb.x < a.x + dx + ha.x || a.x + dx - ha.x < b.x + hb.x < a.x + dx
        + ha.x
    &&& b.y - hb.y < a.y + dy - ha.y < b.y + hb.y || b.y - hb.y < a.y + dy + ha.y < b.y + hb.y
}

/// A rectangle has room in the `i32` range for its corners.
pub open spec fn has_room(center: Vec2, half: Vec2) -> bool {
    &&& 0 <= half.x
    &&& 0 <= half.y
    &&& i32::MIN <= center.x - half.x
    &&& center.x + half.x <= i32::MAX
    &&& i32::MIN <= center.y - half.y
    &&& center.y + half.y <= i32::MAX
}

/// Two segments along x never cross, and neither do two along y.
pub proof fn lemma_parallel_apart(x1: int, x2: int, y: int, x3: int, x4: int, y2: int)
    ensures
        !segments_cross(x1, y, x2, y, x3, y2, x4, y2),
        !segments_cross(y, x1, y, x2, y2, x3, y2, x4),
{
    assert((y2 - y) * (x3 - x1) - (y2 - y) * (x4 - x1) == (y2 - y) * (x3 - x2) - (y2 - y) * (x4
        - x2)) by (nonlinear_arith);
    assert((x3 - x1) * (y2 - y) - (x4 - x1) * (y2 - y) == (x3 - x2) * (y2 - y) - (x4 - x2) * (y2
        - y)) by (nonlinear_arith);
}

/// A segment along x that crosses one along y has the other's column
/// within its columns and its row within the other's rows.
pub proof fn lemma_cross_within(x1: int, x2: int, y: int, x: int, y1: int, y2: int)
    requires
        segments_cross(x1, y, x2, y, x, y1, x, y2),
    ensures
        min(x1, x2) <= x <= max(x1, x2),
        min(y1, y2) <= y <= max(y1, y2),
{
    // The ends of the first segment lie on different sides of the second.
    assert(((y2 - y) * (x - x1) > (y1 - y) * (x - x1)) == ((y2 - y1) * (x - x1) > 0))
        by (nonlinear_arith);
    assert(((y2 - y) * (x - x2) > (y1 - y) * (x - x2)) == ((y2 - y1) * (x - x2) > 0))
        by (nonlinear_arith);
    assert(((y2 - y1) * (x - x1) > 0) != ((y2 - y1) * (x - x2) > 0) ==> min(x1, x2) <= x <= max(
        x1,
        x2,
    )) by (nonlinear_arith);
    // The ends of the second segment lie on different sides of the first.
    assert(((y1 - y) * (x2 - x1) > 0 * (x - x1)) == ((y1 - y) * (x2 - x1) > 0)) by (nonlinear_arith);
    assert(((y2 - y) * (x2 - x1) > 0 * (x - x1)) == ((y2 - y) * (x2 - x1) > 0)) by (nonlinear_arith);
    assert(((y1 - y) * (x2 - x1) > 0) != ((y2 - y) * (x2 - x1) > 0) ==> min(y1, y2) <= y <= max(
        y1,
        y2,
    )) by (nonlinear_arith);
}

/// A segment along x crosses one along y whose column lies strictly within
/// its columns while its row lies strictly within the other's rows.
pub proof fn lemma_cross_strictly(x1: int, x2: int, y: int, x: int, y1: int, y2: int)
    requires
        min(x1, x2) < x < max(x1, x2),
        min(y1, y2) < y < max(y1, y2),
    ensures
        segments_cross(x1, y, x2, y, x, y1, x, y2),
{
    assert(((y2 - y) * (x - x1) > (y1 - y) * (x - x1)) == ((y2 - y1) * (x - x1) > 0))
        by (nonlinear_arith);
    assert(((y2 - y) * (x - x2) > (y1 - y) * (x - x2)) == ((y2 - y1) * (x - x2) > 0))
        by (nonlinear_arith);
    assert(((y2 - y1) * (x - x1) > 0) != ((y2 - y1) * (x - x2) > 0)) by (nonlinear_arith)
        requires
            min(x1, x2) < x < max(x1, x2),
            y1 != y2,
    ;
    assert(((y1 - y) * (x2 - x1) > 0 * (x - x1)) == ((y1 - y) * (x2 - x1) > 0)) by (nonlinear_arith);
    assert(((y2 - y) * (x2 - x1) > 0 * (x - x1)) == ((y2 - y) * (x2 - x1) > 0)) by (nonlinear_arith);
    assert(((y1 - y) * (x2 - x1) > 0) != ((y2 - y) * (x2 - x1) > 0)) by (nonlinear_arith)
        requires
            min(y1, y2) < y < max(y1, y2),
            x1 != x2,
    ;
}

/// The edges of an upright rectangle: the top and the bottom run along x
/// between the left and the right side, and the sides run along y.
pub proof fn lemma_upright_edges(center: Vec2, half: Vec2)
    requires
        has_room(center, half),
    ensures
        upright(center, half).lines[0] == (Line {
            point1: Vec2 { x: (center.x - half.x) as i32, y: (center.y + half.y) as i32 },
            point2: Vec2 { x: (center.x + half.x) as i32, y: (center.y + half.y) as i32 },
        }),
        upright(center, half).lines[1] == (Line {
            point1: Vec2 { x: (center.x - half.x) as i32, y: (center.y - half.y) as i32 },
            point2: Vec2 { x: (center.x + half.x) as i32, y: (center.y - half.y) as i32 },
        }),
        upright(center, half).lines[2] == (Line {
            point1: Vec2 { x: (center.x + half.x) as i32, y: (center.y + half.y) as i32 },
            point2: Vec2 { x: (center.x + half.x) as i32, y: (center.y - half.y) as i32 },
        }),
        upright(center, half).lines[3] == (Line {
            point1: Vec2 { x: (center.x - half.x) as i32, y: (center.y + half.y) as i32 },
            point2: Vec2 { x: (center.x - half.x) as i32, y: (center.y - half.y) as i32 },
        }),
{
    assert(div_trunc(half.x * UNIT, UNIT as int) == half.x) by (nonlinear_arith)
        requires
            half.x >= 0,
            UNIT == 1000,
            div_trunc(half.x * UNIT, UNIT as int) == (half.x * UNIT) / (UNIT as int),
    ;
    assert(div_trunc(half.y * UNIT, UNIT as int) == half.y) by (nonlinear_arith)
        requires
            half.y >= 0,
            UNIT == 1000,
            div_trunc(half.y * UNIT, UNIT as int) == (half.y * UNIT) / (UNIT as int),
    ;
    assert(half.x * 0 == 0 && half.y * 0 == 0);
    assert(div_trunc(0, UNIT as int) == 0);
}

/// Upright rectangles that collide have extents that meet along both axes.
pub proof fn lemma_upright_collision_within(a: Vec2, ha: Vec2, b: Vec2, hb: Vec2, dx: int, dy: int)
    requires
        has_room(a, ha),
        has_room(b, hb),
        upright(a, ha).collides(upright(b, hb), dx, dy),
    ensures
        extents_meet(a, ha, b, hb, dx, dy),
{
    let p = upright(a, ha);
    let q = upright(b, hb);
    lemma_upright_edges(a, ha);
    lemma_upright_edges(b, hb);
    let (i, j) = choose|i: int, j: int|
        0 <= i < 4 && 0 <= j < 4 && #[trigger] p.lines[i].crosses(#[trigger] q.lines[j], dx, dy);
    let l = p.lines[i];
    let m = q.lines[j];
    if i < 2 && j < 2 {
        lemma_parallel_apart(
            l.point1.x + dx,
            l.point2.x + dx,
            l.point1.y + dy,
            m.point1.x as int,
            m.point2.x as int,
            m.point1.y as int,
        );
    } else if i >= 2 && j >= 2 {
        lemma_parallel_apart(
            l.point1.y + dy,
            l.point2.y + dy,
            l.point1.x + dx,
            m.point1.y as int,
            m.point2.y as int,
            m.point1.x as int,
        );
    } else if i < 2 {
        lemma_cross_within(
            l.point1.x + dx,
            l.point2.x + dx,
            l.point1.y + dy,
            m.point1.x as int,
            m.point1.y as int,
            m.point2.y as int,
        );
    } else {
        lemma_segments_cross_symmetric(
            l.point1.x + dx,
            l.point1.y + dy,
            l.point2.x + dx,
            l.point2.y + dy,
            m.point1.x as int,
            m.point1.y as int,
            m.point2.x as int,
            m.point2.y as int,
        );
        lemma_cross_within(
            m.point1.x as int,
            m.point2.x as int,
            m.point1.y as int,
            l.point1.x + dx,
            l.point1.y + dy,
            l.point2.y + dy,
        );
    }
}

/// Upright rectangles collide where a side of the second lies strictly
/// within the first along x while the top or the bottom of the first lies
/// strictly within the second along y.
pub proof fn lemma_upright_sides_cross(a: Vec2, ha: Vec2, b: Vec2, hb: Vec2, dx: int, dy: int)
    requires
        has_room(a, ha),
        has_room(b, hb),
        sides_cross(a, ha, b, hb, dx, dy),
    ensures
        upright(a, ha).collides(upright(b, hb), dx, dy),
{
    let p = upright(a, ha);
    let q = upright(b, hb);
    lemma_upright_edges(a, ha);
    lemma_upright_edges(b, hb);
    // The edge of the first along x, and the edge of the second along y.
    let i: int = if b.y - hb.y < a.y + dy + ha.y < b.y + hb.y {
        0
    } else {
        1
    };
    let j: int = if a.x + dx - ha.x < b.x + hb.x < a.x + dx + ha.x {
        2
    } else {
        3
    };
    let l = p.lines[i];
    let m = q.lines[j];
    lemma_cross_strictly(
        l.point1.x + dx,
        l.point2.x + dx,
        l.point1.y + dy,
        m.point1.x as int,
        m.point1.y as int,
        m.point2.y as int,
    );
    assert(p.lines[i].crosses(q.lines[j], dx, dy));
}

/// A tile coordinate, or a displacement between tiles.
#[derive(Clone, Copy, Debug, PartialEq, Eq, Structural, Hash)]
pub struct IVec2 {
    pub x: i32,
    pub y: i32,
}

impl IVec2 {
    /// The tile reached from `self` by the displacement `(dx, dy)`; each
    /// coordinate stops at the end of the `i32` range.
    pub open spec fn moved(self, dx: int, dy: int) -> IVec2 {
        IVec2 { x: clamp_i32(self.x + dx) as i32, y: clamp_i32(self.y + dy) as i32 }
    }

    pub fn new(x: i32, y: i32) -> (v: IVec2)
        ensures
            v == (IVec2 { x, y }),
    {
        IVec2 { x, y }
    }

    /// Saturating displacement of a tile coordinate.
    pub fn offset(self, dx: i32, dy: i32) -> (r: IVec2)
        ensures
            r == self.moved(dx as int, dy as int),
    {
        IVec2 { x: saturate(self.x as i64 + dx as i64), y: saturate(self.y as i64 + dy as i64) }
    }
}

/// The eight mirror images, about `center`, of the offset `(dx, dy)`.
pub open spec fn octants(center: IVec2, dx: int, dy: int) -> Seq<IVec2> {
    seq![
        center.moved(dx, dy),
        center.moved(dy, dx),
        center.moved(-dx, dy),
        center.moved(-dy, dx),
        center.moved(-dx, -dy),
        center.moved(-dy, -dx),
        center.moved(dx, -dy),
        center.moved(dy, -dx),
    ]
}

/// The rest of a midpoint circle from the offset `(dx, dy)` on, where `o2`
/// is the decision term: while it is not positive the walk goes straight up,
/// otherwise it also steps inward.
pub open spec fn circle_from(center: IVec2, dx: int, dy: int, o2: int) -> Seq<IVec2>
    decreases dx - dy + 2,
{
    if dy > dx {
        Seq::empty()
    } else if o2 <= 0 {
        octants(center, dx, dy) + circle_from(center, dx, dy + 1, o2 + 2 * (dy + 1) + 1)
    } else {
        octants(center, dx, dy) + circle_from(
            center,
            dx - 1,
            dy + 1,
            o2 + 2 * (dy + 1 - (dx - 1)) + 1,
        )
    }
}

/// The tiles on the circle of the given radius about `center`, as the
/// midpoint circle algorithm yields them: eight at a time, one per octant.
pub open spec fn circumference(center: IVec2, radius: int) -> Seq<IVec2> {
    circle_from(center, radius, 0, 1 - radius)
}

/// The tiles on the circle of radius `radius` about `center`. A negative
/// radius gives no tile.
pub fn points_on_circumference(center: IVec2, radius: i32) -> (points: Vec<IVec2>)
    ensures
        points@ == circumference(center, radius as int),
        points@.len() % 8 == 0,
        radius < 0 ==> points@.len() == 0,
        radius >= 0 ==> points@.len() >= 8 && points@[0] == center.moved(radius as int, 0),
{
    let mut dx: i64 = radius as i64;
    let mut dy: i64 = 0;
    let mut o2: i128 = 1 - radius as i128;
    let mut points: Vec<IVec2> = Vec::new();
    assert(points@ + circle_from(center, dx as int, dy as int, o2 as int) =~= circumference(
        center,
        radius as int,
    ));
    while dy <= dx
        invariant
            0 <= dy,
            dx <= radius,
            -0x1_0000_0000 - dy * 0x4_0000_0000 <= o2 <= 0x1_0000_0000 + dy * 0x4_0000_0000,
            points@ + circle_from(center, dx as int, dy as int, o2 as int) == circumference(
                center,
                radius as int,
            ),
            points@.len() % 8 == 0,
            radius < 0 ==> points@.len() == 0,
            dy > 0 ==> points@.len() >= 8 && points@[0] == center.moved(radius as int, 0),
            dy == 0 ==> dx == radius && points@.len() == 0,
        decreases dx - dy + 2,
    {
        let ghost before = points@;
        let x: i32 = dx as i32;
        let y: i32 = dy as i32;
        points.push(center.offset(x, y));
        points.push(center.offset(y, x));
        points.push(center.offset(-x, y));
        points.push(center.offset(-y, x));
        points.push(center.offset(-x, -y));
        points.push(center.offset(-y, -x));
        points.push(center.offset(x, -y));
        points.push(center.offset(y, -x));
        assert(points@ =~= before + octants(center, dx as int, dy as int));
        let ghost rest_before = circle_from(center, dx as int, dy as int, o2 as int);
        dy = dy + 1;
        if o2 <= 0 {
            o2 = o2 + (2 * dy as i128) + 1;
        } else {
            dx = dx - 1;
            o2 = o2 + 2 * (dy as i128 - dx as i128) + 1;
        }
        assert(rest_before == octants(center, x as int, y as int) + circle_from(
            center,
            dx as int,
            dy as int,
            o2 as int,
        ));
        assert(points@ + circle_from(center, dx as int, dy as int, o2 as int) =~= before
            + rest_before);
    }
    assert(circle_from(center, dx as int, dy as int, o2 as int) =~= Seq::<IVec2>::empty());
    assert(points@ =~= points@ + Seq::<IVec2>::empty());
    points
}

/// The sign of `v`: -1, 0 or 1.
pub open spec fn signum(v: int) -> int {
    if v < 0 {
        -1
    } else if v == 0 {
        0
    } else {
        1
    }
}

/// The smaller of two numbers.
pub open spec fn min(a: int, b: int) -> int {
    if a <= b {
        a
    } else {
        b
    }
}

/// The larger of two numbers.
pub open spec fn max(a: int, b: int) -> int {
    if a >= b {
        a
    } else {
        b
    }
}

/// The absolute value of `v`.
pub open spec fn abs(v: int) -> int {
    if v < 0 {
        -v
    } else {
        v
    }
}

/// The rest of a grid walk of `n` tiles from `(x, y)`: each tile is recorded,
/// then the walk moves one tile along x when the error term is positive and
/// one tile along y otherwise.
pub open spec fn line_from(
    x: int,
    y: int,
    inc_x: int,
    inc_y: int,
    err: int,
    dx2: int,
    dy2: int,
    n: nat,
) -> Seq<IVec2>
    decreases n,
{
    if n == 0 {
        Seq::empty()
    } else if err > 0 {
        seq![IVec2 { x: x as i32, y: y as i32 }] + line_from(
            x + inc_x,
            y,
            inc_x,
            inc_y,
            err - dy2,
            dx2,
            dy2,
            (n - 1) as nat,
        )
    } else {
        seq![IVec2 { x: x as i32, y: y as i32 }] + line_from(
            x,
            y + inc_y,
            inc_x,
            inc_y,
            err + dx2,
            dx2,
            dy2,
            (n - 1) as nat,
        )
    }
}

/// The tiles that a straight walk from `pos1` to `pos2` visits, moving one
/// tile along one axis at a time.
pub open spec fn line(pos1: IVec2, pos2: IVec2) -> Seq<IVec2> {
    let dx = abs(pos2.x - pos1.x);
    let dy = abs(pos2.y - pos1.y);
    line_from(
        pos1.x as int,
        pos1.y as int,
        signum(pos2.x - pos1.x),
        signum(pos2.y - pos1.y),
        dx - dy,
        2 * dx,
        2 * dy,
        (1 + dx + dy) as nat,
    )
}

/// Whether `q` is one tile away from `p` along exactly one axis.
pub open spec fn adjacent(p: IVec2, q: IVec2) -> bool {
    abs(q.x - p.x) + abs(q.y - p.y) == 1
}

/// Whether `p` lies in the smallest rectangle of tiles that holds `a` and `b`.
pub open spec fn between(p: IVec2, a: IVec2, b: IVec2) -> bool {
    &&& (a.x <= p.x <= b.x || b.x <= p.x <= a.x)
    &&& (a.y <= p.y <= b.y || b.y <= p.y <= a.y)
}

/// The tiles of a straight walk from `pos1` to `pos2`: it starts at `pos1`,
/// ends at `pos2`, moves to an adjacent tile at every step and never leaves
/// the rectangle between the two.
pub fn points_on_line(pos1: IVec2, pos2: IVec2) -> (lines: Vec<IVec2>)
    ensures
        lines@ == line(pos1, pos2),
        lines@.len() == 1 + abs(pos2.x - pos1.x) + abs(pos2.y - pos1.y),
        lines@[0] == pos1,
        lines@[lines@.len() - 1] == pos2,
        forall|k: int| 0 <= k < lines@.len() ==> between(#[trigger] lines@[k], pos1, pos2),
        forall|k: int| 0 <= k < lines@.len() - 1 ==> adjacent(#[trigger] lines@[k], lines@[k + 1]),
{
    let sx: i64 = pos2.x as i64 - pos1.x as i64;
    let sy: i64 = pos2.y as i64 - pos1.y as i64;
    let dx: i64 = if sx < 0 { -sx } else { sx };
    let dy: i64 = if sy < 0 { -sy } else { sy };
    let inc_x: i64 = if sx < 0 { -1 } else if sx == 0 { 0 } else { 1 };
    let inc_y: i64 = if sy < 0 { -1 } else if sy == 0 { 0 } else { 1 };
    let mut x: i64 = pos1.x as i64;
    let mut y: i64 = pos1.y as i64;
    let mut n: i64 = 1 + dx + dy;
    let mut err: i128 = dx as i128 - dy as i128;
    // How many steps along each axis are still to be made.
    let ghost mut a: int = dx as int;
    let ghost mut b: int = dy as int;
    let ghost total = line(pos1, pos2);
    let mut lines: Vec<IVec2> = Vec::new();
    proof {
        assert(lines@ + line_from(
            x as int,
            y as int,
            inc_x as int,
            inc_y as int,
            err as int,
            2 * dx,
            2 * dy,
            n as nat,
        ) =~= total);
        lemma_walk_start(pos1, pos2);
    }
    while n > 0
        invariant
            0 <= n <= 0x2_0000_0001,
            dx == abs(pos2.x - pos1.x),
            dy == abs(pos2.y - pos1.y),
            inc_x == signum(pos2.x - pos1.x),
            inc_y == signum(pos2.y - pos1.y),
            total == line(pos1, pos2),
            lines@ + line_from(
                x as int,
                y as int,
                inc_x as int,
                inc_y as int,
                err as int,
                2 * dx,
                2 * dy,
                n as nat,
            ) == total,
            lines@.len() == 1 + dx + dy - n,
            n > 0 ==> walking(pos1, pos2, a, b, n as int, err as int, x as int, y as int),
            lines@.len() > 0 ==> lines@[0] == pos1,
            n == 0 ==> lines@.len() > 0 && lines@[lines@.len() - 1] == pos2,
            forall|k: int| 0 <= k < lines@.len() ==> between(#[trigger] lines@[k], pos1, pos2),
            forall|k: int|
                0 <= k < lines@.len() - 1 ==> adjacent(#[trigger] lines@[k], lines@[k + 1]),
            n > 0 && lines@.len() > 0 ==> adjacent(
                lines@[lines@.len() - 1],
                IVec2 { x: x as i32, y: y as i32 },
            ),
        decreases n,
    {
        let ghost before = lines@;
        let ghost rest_before = line_from(
            x as int,
            y as int,
            inc_x as int,
            inc_y as int,
            err as int,
            2 * dx,
            2 * dy,
            n as nat,
        );
        proof {
            lemma_walk_here(pos1, pos2, a, b, n as int, err as int, x as int, y as int);
        }
        let here = IVec2 { x: x as i32, y: y as i32 };
        lines.push(here);
        assert(lines@ =~= before + seq![here]);
        let ghost old_x = x;
        let ghost old_y = y;
        let ghost old_err = err;
        if err > 0 {
            x = x + inc_x;
            err = err - 2 * (dy as i128);
            proof {
                a = a - 1;
            }
        } else {
            y = y + inc_y;
            err = err + 2 * (dx as i128);
            proof {
                b = b - 1;
            }
        }
        n = n - 1;
        proof {
            lemma_walk_next(
                pos1,
                pos2,
                if old_err > 0 {
                    a + 1
                } else {
                    a
                },
                if old_err > 0 {
                    b
                } else {
                    b + 1
                },
                n + 1,
                old_err as int,
                old_x as int,
                old_y as int,
            );
            assert(rest_before == seq![here] + line_from(
                x as int,
                y as int,
                inc_x as int,
                inc_y as int,
                err as int,
                2 * dx,
                2 * dy,
                n as nat,
            ));
            assert(lines@ + line_from(
                x as int,
                y as int,
                inc_x as int,
                inc_y as int,
                err as int,
                2 * dx,
                2 * dy,
                n as nat,
            ) =~= before + rest_before);
        }
    }
    assert(line_from(
        x as int,
        y as int,
        inc_x as int,
        inc_y as int,
        err as int,
        2 * dx,
        2 * dy,
        0nat,
    ) =~= Seq::<IVec2>::empty());
    assert(lines@ =~= lines@ + Seq::<IVec2>::empty());
    lines
}

/// The state of a walk from `pos1` to `pos2` before a tile is recorded:
/// `a` and `b` steps remain along x and y, `n` tiles remain, and `(x, y)` is
/// the tile that these steps lead from.
pub closed spec fn walking(
    pos1: IVec2,
    pos2: IVec2,
    a: int,
    b: int,
    n: int,
    err: int,
    x: int,
    y: int,
) -> bool {
    let dx = abs(pos2.x - pos1.x);
    let dy = abs(pos2.y - pos1.y);
    &&& 0 <= a <= dx
    &&& 0 <= b <= dy
    &&& a + b + 1 == n
    &&& err == dx - dy + 2 * (dy * a) - 2 * (dx * b)
    &&& x == pos1.x + signum(pos2.x - pos1.x) * (dx - a)
    &&& y == pos1.y + signum(pos2.y - pos1.y) * (dy - b)
}

proof fn lemma_walk_start(pos1: IVec2, pos2: IVec2)
    ensures
        walking(
            pos1,
            pos2,
            abs(pos2.x - pos1.x),
            abs(pos2.y - pos1.y),
            1 + abs(pos2.x - pos1.x) + abs(pos2.y - pos1.y),
            abs(pos2.x - pos1.x) - abs(pos2.y - pos1.y),
            pos1.x as int,
            pos1.y as int,
        ),
{
    let dx = abs(pos2.x - pos1.x);
    let dy = abs(pos2.y - pos1.y);
    assert(dy * dx == dx * dy) by (nonlinear_arith);
    assert(signum(pos2.x - pos1.x) * (dx - dx) == 0) by (nonlinear_arith);
    assert(signum(pos2.y - pos1.y) * (dy - dy) == 0) by (nonlinear_arith);
}

/// The tile at which a walk stands lies between its ends; it is the end
/// when no step remains.
proof fn lemma_walk_here(pos1: IVec2, pos2: IVec2, a: int, b: int, n: int, err: int, x: int, y: int)
    requires
        walking(pos1, pos2, a, b, n, err, x, y),
    ensures
        between(IVec2 { x: x as i32, y: y as i32 }, pos1, pos2),
        -0x8000_0000 <= x < 0x8000_0000,
        -0x8000_0000 <= y < 0x8000_0000,
        n == 1 ==> x == pos2.x && y == pos2.y,
        n == 1 + abs(pos2.x - pos1.x) + abs(pos2.y - pos1.y) ==> x == pos1.x && y == pos1.y,
        -0x4_0000_0000_0000_0000 <= err <= 0x4_0000_0000_0000_0000,
{
    let dx = abs(pos2.x - pos1.x);
    let dy = abs(pos2.y - pos1.y);
    let sx = signum(pos2.x - pos1.x);
    let sy = signum(pos2.y - pos1.y);
    lemma_walk_err_bound(dx, dy, a, b, err);
    assert(sx * (dx - a) == if sx == 1 {
        dx - a
    } else if sx == -1 {
        a - dx
    } else {
        0
    }) by (nonlinear_arith)
        requires
            sx == 1 || sx == -1 || sx == 0,
    ;
    assert(sy * (dy - b) == if sy == 1 {
        dy - b
    } else if sy == -1 {
        b - dy
    } else {
        0
    }) by (nonlinear_arith)
        requires
            sy == 1 || sy == -1 || sy == 0,
    ;
}

/// One step of a walk: along x when the error term is positive, else along
/// y. While tiles remain, the step leads to a tile next to the one left,
/// and the walk goes on from there.
proof fn lemma_walk_next(pos1: IVec2, pos2: IVec2, a: int, b: int, n: int, err: int, x: int, y: int)
    requires
        walking(pos1, pos2, a, b, n, err, x, y),
    ensures
        n > 1 && err > 0 ==> walking(
            pos1,
            pos2,
            a - 1,
            b,
            n - 1,
            err - 2 * abs(pos2.y - pos1.y),
            x + signum(pos2.x - pos1.x),
            y,
        ) && adjacent(
            IVec2 { x: x as i32, y: y as i32 },
            IVec2 { x: (x + signum(pos2.x - pos1.x)) as i32, y: y as i32 },
        ),
        n > 1 && err <= 0 ==> walking(
            pos1,
            pos2,
            a,
            b - 1,
            n - 1,
            err + 2 * abs(pos2.x - pos1.x),
            x,
            y + signum(pos2.y - pos1.y),
        ) && adjacent(
            IVec2 { x: x as i32, y: y as i32 },
            IVec2 { x: x as i32, y: (y + signum(pos2.y - pos1.y)) as i32 },
        ),
        -0x8000_0001 <= x + signum(pos2.x - pos1.x) <= 0x8000_0000,
        -0x8000_0001 <= y + signum(pos2.y - pos1.y) <= 0x8000_0000,
{
    let dx = abs(pos2.x - pos1.x);
    let dy = abs(pos2.y - pos1.y);
    let sx = signum(pos2.x - pos1.x);
    let sy = signum(pos2.y - pos1.y);
    lemma_walk_here(pos1, pos2, a, b, n, err, x, y);
    assert(0 <= dy * a <= dy * dx && 0 <= dx * b <= dx * dy && dy * dx == dx * dy) by (nonlinear_arith)
        requires
            0 <= a <= dx,
            0 <= b <= dy,
    ;
    if n > 1 {
        if err > 0 {
            if a == 0 {
                assert(dx * b >= dx) by (nonlinear_arith)
                    requires
                        b >= 1,
                        dx >= 0,
                ;
                assert(dy * a == 0) by (nonlinear_arith)
                    requires
                        a == 0,
                ;
                assert(false);
            }
            assert(dy * (a - 1) == dy * a - dy) by (nonlinear_arith);
            assert(sx * (dx - (a - 1)) == sx * (dx - a) + sx) by (nonlinear_arith);
            assert(sx == 1 || sx == -1);
            lemma_walk_here(pos1, pos2, a - 1, b, n - 1, err - 2 * dy, x + sx, y);
        } else {
            if b == 0 {
                assert(dy * a >= dy) by (nonlinear_arith)
                    requires
                        a >= 1,
                        dy >= 0,
                ;
                assert(dx * b == 0) by (nonlinear_arith)
                    requires
                        b == 0,
                ;
                assert(false);
            }
            assert(dx * (b - 1) == dx * b - dx) by (nonlinear_arith);
            assert(sy * (dy - (b - 1)) == sy * (dy - b) + sy) by (nonlinear_arith);
            assert(sy == 1 || sy == -1);
            lemma_walk_here(pos1, pos2, a, b - 1, n - 1, err + 2 * dx, x, y + sy);
        }
    }
}

proof fn lemma_walk_err_bound(dx: int, dy: int, a: int, b: int, err: int)
    requires
        0 <= a <= dx < 0x1_0000_0000,
        0 <= b <= dy < 0x1_0000_0000,
        err == dx - dy + 2 * (dy * a) - 2 * (dx * b),
    ensures
        -0x4_0000_0000_0000_0000 <= err <= 0x4_0000_0000_0000_0000,
{
    assert(0 <= dy * a <= 0x1_0000_0000 * 0x1_0000_0000) by (nonlinear_arith)
        requires
            0 <= a < 0x1_0000_0000,
            0 <= dy < 0x1_0000_0000,
    ;
    assert(0 <= dx * b <= 0x1_0000_0000 * 0x1_0000_0000) by (nonlinear_arith)
        requires
            0 <= b < 0x1_0000_0000,
            0 <= dx < 0x1_0000_0000,
    ;
}

/// The two running sums of Fletcher's checksum over `data`, each modulo 255.
pub open spec fn fletcher_sums(data: Seq<u8>) -> (int, int)
    decreases data.len(),
{
    if data.len() == 0 {
        (0, 0)
    } else {
        let (sum1, sum2) = fletcher_sums(data.drop_last());
        let next1 = (sum1 + data.last()) % 255;
        (next1, (sum2 + next1) % 255)
    }
}

/// Fletcher's 16-bit checksum: the second sum in the high byte, the first in
/// the low byte.
pub open spec fn fletcher16_spec(data: Seq<u8>) -> int {
    fletcher_sums(data).1 * 256 + fletcher_sums(data).0
}

pub fn fletcher16(data: Vec<u8>) -> (checksum: u16)
    ensures
        checksum as int == fletcher16_spec(data@),
{
    let mut sum1: u16 = 0;
    let mut sum2: u16 = 0;
    let mut i: usize = 0;
    while i < data.len()
        invariant
            i <= data.len(),
            sum1 < 255,
            sum2 < 255,
            (sum1 as int, sum2 as int) == fletcher_sums(data@.take(i as int)),
        decreases data.len() - i,
    {
        assert(data@.take(i + 1).drop_last() =~= data@.take(i as int));
        sum1 = (sum1 + data[i] as u16) % 255;
        sum2 = (sum2 + sum1) % 255;
        i = i + 1;
    }
    assert(data@.take(i as int) =~= data@);
    assert((sum2 << 8) | sum1 == sum2 * 256 + sum1) by (bit_vector)
        requires
            sum1 < 255,
            sum2 < 255,
    ;
    (sum2 << 8) | sum1
}

} // verus!
