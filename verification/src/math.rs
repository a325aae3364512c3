//! Fixed-point 2D vector arithmetic and arena clamping.
//!
//! Coordinates are i64 values in milli-units (thousandths of a world
//! unit).  Scaling divides by `SCALE` with truncation toward zero, the
//! same rounding on either side of zero, captured by [`sdiv`].

use vstd::prelude::*;

verus! {

/// Milli-units per world unit.
pub const SCALE: i64 = 1000;

/// Arena width in milli-units.
pub const ARENA_W: i64 = 960_000;

/// Arena height in milli-units.
pub const ARENA_H: i64 = 540_000;

/// Division truncating toward zero (what `/` does on machine integers),
/// for a positive divisor.
pub open spec fn sdiv(a: int, b: int) -> int
    recommends
        b > 0,
{
    if a >= 0 {
        a / b
    } else {
        -((-a) / b)
    }
}

/// `r` is the integer square root of `n`: the largest integer whose
/// square does not exceed `n`.
pub open spec fn is_sqrt(n: int, r: int) -> bool {
    0 <= r && r * r <= n && n < (r + 1) * (r + 1)
}

/// The integer square root of `n` (meaningful once existence is shown,
/// see [`lemma_sqrt_exists`]).
pub open spec fn sqrt_of(n: int) -> int {
    choose|r: int| is_sqrt(n, r)
}

/// Every natural number has an integer square root, and `sqrt_of`
/// denotes it.
pub proof fn lemma_sqrt_exists(n: nat)
    ensures
        is_sqrt(n as int, sqrt_of(n as int)),
    decreases n,
{
    if n == 0 {
        assert(is_sqrt(0, 0));
    } else {
        lemma_sqrt_exists((n - 1) as nat);
        let r = sqrt_of(n - 1);
        assert(is_sqrt(n - 1, r));
        if (r + 1) * (r + 1) <= n {
            assert(is_sqrt(n as int, r + 1)) by (nonlinear_arith)
                requires
                    is_sqrt(n - 1, r),
                    (r + 1) * (r + 1) <= n,
            ;
        } else {
            assert(is_sqrt(n as int, r));
        }
    }
}

/// The integer square root is unique.
pub proof fn lemma_sqrt_unique(n: int, r1: int, r2: int)
    requires
        is_sqrt(n, r1),
        is_sqrt(n, r2),
    ensures
        r1 == r2,
{
    assert(r1 == r2) by (nonlinear_arith)
        requires
            is_sqrt(n, r1),
            is_sqrt(n, r2),
    ;
}

/// Truncating division keeps magnitude bounds and never flips sign.
pub proof fn lemma_sdiv_mag(a: int, b: int, m: int)
    requires
        b >= 1,
        0 <= m,
        -m <= a <= m,
    ensures
        -(m / b) <= sdiv(a, b) <= m / b,
        a >= 0 ==> sdiv(a, b) >= 0,
        a <= 0 ==> sdiv(a, b) <= 0,
{
    vstd::arithmetic::div_mod::lemma_div_pos_is_pos(m, b);
    if a >= 0 {
        vstd::arithmetic::div_mod::lemma_div_pos_is_pos(a, b);
        vstd::arithmetic::div_mod::lemma_div_is_ordered(a, m, b);
    } else {
        vstd::arithmetic::div_mod::lemma_div_pos_is_pos(-a, b);
        vstd::arithmetic::div_mod::lemma_div_is_ordered(-a, m, b);
    }
}

/// Fixed-point scaling keeps magnitude bounds, and keeps the sign of
/// `a` when the factor is nonnegative.
pub proof fn lemma_scale1_mag(a: int, s: int, ma: int, ms: int)
    requires
        -ma <= a <= ma,
        -ms <= s <= ms,
        0 <= ma,
        0 <= ms,
    ensures
        -((ma * ms) / (SCALE as int)) <= scale1(a, s) <= (ma * ms) / (SCALE as int),
        a >= 0 && s >= 0 ==> scale1(a, s) >= 0,
        a <= 0 && s >= 0 ==> scale1(a, s) <= 0,
{
    assert(-(ma * ms) <= a * s <= ma * ms && (a >= 0 && s >= 0 ==> a * s >= 0) && (a <= 0 && s
        >= 0 ==> a * s <= 0) && ma * ms >= 0) by (nonlinear_arith)
        requires
            -ma <= a <= ma,
            -ms <= s <= ms,
            0 <= ma,
            0 <= ms,
    ;
    lemma_sdiv_mag(a * s, SCALE as int, ma * ms);
}

/// A normalized coordinate lies within one fixed-point unit of zero
/// and keeps the sign of the coordinate it came from.
pub proof fn lemma_norm1_mag(a: int, l2: int, l: int)
    requires
        is_sqrt(l2, l),
        1 <= l,
        a * a <= l2,
    ensures
        -(SCALE as int) <= norm1(a, l) <= SCALE as int,
        a >= 0 ==> norm1(a, l) >= 0,
        a <= 0 ==> norm1(a, l) <= 0,
{
    assert(-l <= a <= l) by (nonlinear_arith)
        requires
            a * a <= l2,
            l2 < (l + 1) * (l + 1),
            0 <= l,
    ;
    assert(-(l * (SCALE as int)) <= a * (SCALE as int) <= l * (SCALE as int))
        by (nonlinear_arith)
        requires
            -l <= a <= l,
    ;
    lemma_sdiv_mag(a * (SCALE as int), l, l * (SCALE as int));
    vstd::arithmetic::div_mod::lemma_div_by_multiple(SCALE as int, l);
    assert(l * (SCALE as int) == (SCALE as int) * l) by (nonlinear_arith);
}

/// For a nonzero vector `(x, y)`: its squared length has a positive
/// integer square root, and both normalized coordinates stay within one
/// fixed-point unit of zero, each keeping its coordinate's sign.
pub proof fn lemma_norm_bounds(x: int, y: int)
    requires
        x * x + y * y != 0,
    ensures
        ({
            let l2 = x * x + y * y;
            let l = sqrt_of(l2);
            &&& is_sqrt(l2, l)
            &&& 1 <= l
            &&& -(SCALE as int) <= norm1(x, l) <= SCALE as int
            &&& -(SCALE as int) <= norm1(y, l) <= SCALE as int
            &&& (x >= 0 ==> norm1(x, l) >= 0)
            &&& (x <= 0 ==> norm1(x, l) <= 0)
            &&& (y >= 0 ==> norm1(y, l) >= 0)
            &&& (y <= 0 ==> norm1(y, l) <= 0)
        }),
{
    assert(x * x >= 0 && y * y >= 0) by (nonlinear_arith);
    let l2 = x * x + y * y;
    lemma_sqrt_exists(l2 as nat);
    let l = sqrt_of(l2);
    assert(is_sqrt(l2, l));
    if l == 0 {
        assert((l + 1) * (l + 1) == 1) by (nonlinear_arith)
            requires
                l == 0,
        ;
        assert(false);
    }
    lemma_norm1_mag(x, l2, l);
    lemma_norm1_mag(y, l2, l);
}

/// Scaling one fixed-point coordinate `a` by the fixed-point factor `s`.
pub open spec fn scale1(a: int, s: int) -> int {
    sdiv(a * s, SCALE as int)
}

/// One coordinate of the normalized vector `(x, y)` whose length is `l`.
pub open spec fn norm1(a: int, l: int) -> int {
    sdiv(a * (SCALE as int), l)
}

/// Clamping one coordinate into `[rad, extent - rad]`, lower bound
/// applied first.
pub open spec fn clamp1(a: int, rad: int, extent: int) -> int {
    let lo = if a < rad {
        rad
    } else {
        a
    };
    if lo > extent - rad {
        extent - rad
    } else {
        lo
    }
}

/// Integer square root by binary search.
pub fn isqrt(n: u64) -> (r: u64)
    requires
        n < 16_000_000_000_000_000_000,
    ensures
        is_sqrt(n as int, r as int),
{
    let mut lo: u64 = 0;
    let mut hi: u64 = 4_000_000_000;
    while lo + 1 < hi
        invariant
            lo < hi <= 4_000_000_000,
            lo * lo <= n,
            n < hi * hi,
        decreases hi - lo,
    {
        let mid = lo + (hi - lo) / 2;
        proof {
            assert(mid * mid < 16_000_000_000_000_000_000) by (nonlinear_arith)
                requires
                    0 <= mid < 4_000_000_000u64,
            ;
        }
        if mid * mid <= n {
            lo = mid;
        } else {
            hi = mid;
        }
    }
    lo
}

/// Multiply then divide with truncation toward zero: `sdiv(a * b, d)`.
fn mul_div(a: i64, b: i64, d: i64) -> (r: i64)
    requires
        0 < d,
        -2_000_000_000 <= a <= 2_000_000_000,
        -2_000_000_000 <= b <= 2_000_000_000,
    ensures
        r == sdiv(a as int * b as int, d as int),
{
    let neg = (a < 0) != (b < 0);
    let am: i64 = if a < 0 {
        -a
    } else {
        a
    };
    let bm: i64 = if b < 0 {
        -b
    } else {
        b
    };
    proof {
        assert(am as int * bm as int <= 4_000_000_000_000_000_000) by (nonlinear_arith)
            requires
                0 <= am <= 2_000_000_000,
                0 <= bm <= 2_000_000_000,
        ;
        assert(0 <= am as int * bm as int && a as int * b as int == (if (a < 0) != (b < 0) {
            -(am as int * bm as int)
        } else {
            am as int * bm as int
        })) by (nonlinear_arith)
            requires
                am == (if a < 0 {
                    -(a as int)
                } else {
                    a as int
                }),
                bm == (if b < 0 {
                    -(b as int)
                } else {
                    b as int
                }),
        ;
    }
    let prod: i64 = am * bm;
    let q: i64 = prod / d;
    proof {
        assert(prod >= 0);
        assert(q == prod as int / d as int);
        assert(0 <= q <= prod) by (nonlinear_arith)
            requires
                prod >= 0,
                d >= 1,
                q == prod as int / d as int,
        ;
    }
    if neg {
        -q
    } else {
        q
    }
}

/// Law: only the zero vector has a squared length below the degenerate
/// threshold at this resolution, and it normalizes to the zero vector;
/// every other vector normalizes to coordinates within one unit that
/// keep their signs, so the result points the same way on each axis.
pub proof fn lemma_normalize_law(x: int, y: int)
    ensures
        x * x + y * y == 0 <==> (x == 0 && y == 0),
        x * x + y * y != 0 ==> ({
            let l = sqrt_of(x * x + y * y);
            &&& 1 <= l
            &&& -(SCALE as int) <= norm1(x, l) <= SCALE as int
            &&& -(SCALE as int) <= norm1(y, l) <= SCALE as int
            &&& (x > 0 ==> norm1(x, l) >= 0)
            &&& (x < 0 ==> norm1(x, l) <= 0)
            &&& (y > 0 ==> norm1(y, l) >= 0)
            &&& (y < 0 ==> norm1(y, l) <= 0)
        }),
{
    assert(x * x >= 0 && y * y >= 0 && (x * x == 0 <==> x == 0) && (y * y == 0 <==> y == 0))
        by (nonlinear_arith);
    if x * x + y * y != 0 {
        lemma_norm_bounds(x, y);
    }
}

/// Law: a nonzero vector normalizes to a vector of roughly unit
/// length: its squared length lies between a quarter and twice the
/// square of one unit. (Exactly one unit is not attainable for every
/// input at a fixed-point resolution.)
pub proof fn lemma_normalize_near_unit(x: int, y: int)
    requires
        x * x + y * y != 0,
    ensures
        ({
            let l = sqrt_of(x * x + y * y);
            let nx = norm1(x, l);
            let ny = norm1(y, l);
            250_000 <= nx * nx + ny * ny <= 2_000_000
        }),
{
    lemma_norm_bounds(x, y);
    let l2 = x * x + y * y;
    let l = sqrt_of(l2);
    let nx = norm1(x, l);
    let ny = norm1(y, l);
    assert(nx * nx <= 1_000_000 && ny * ny <= 1_000_000) by (nonlinear_arith)
        requires
            -1000 <= nx <= 1000,
            -1000 <= ny <= 1000,
    ;
    let a = if x * x >= y * y {
        x
    } else {
        y
    };
    assert(2 * (a * a) >= l2);
    assert(l * l <= l2);
    assert(2 * (if a >= 0 {
        a
    } else {
        -a
    }) >= l) by (nonlinear_arith)
        requires
            2 * (a * a) >= l * l,
            l >= 0,
    ;
    let am = if a >= 0 {
        a
    } else {
        -a
    };
    assert(500 * l <= am * 1000);
    vstd::arithmetic::div_mod::lemma_div_is_ordered(500 * l, am * 1000, l);
    vstd::arithmetic::div_mod::lemma_div_by_multiple(500, l);
    assert(500 * l == l * 500) by (nonlinear_arith);
    assert((am * 1000) / l >= 500);
    let na = norm1(a, l);
    assert(na == sdiv(a * 1000, l));
    if a >= 0 {
        assert(a * 1000 == am * 1000);
        assert(na >= 500);
    } else {
        assert(-(a * 1000) == am * 1000) by (nonlinear_arith)
            requires
                am == -a,
        ;
        assert(na <= -500);
    }
    assert(na * na >= 250_000) by (nonlinear_arith)
        requires
            na >= 500 || na <= -500,
    ;
    assert(nx * nx >= 0 && ny * ny >= 0) by (nonlinear_arith);
    assert(nx * nx + ny * ny >= na * na) by (nonlinear_arith)
        requires
            (na == nx && ny * ny >= 0) || (na == ny && nx * nx >= 0),
    ;
}

/// Law: clamping puts each coordinate into `[rad, extent - rad]`, and
/// clamping an already-clamped coordinate changes nothing.
pub proof fn lemma_clamp_law(a: int, rad: int, extent: int)
    requires
        0 <= rad,
        2 * rad <= extent,
    ensures
        rad <= clamp1(a, rad, extent) <= extent - rad,
        clamp1(clamp1(a, rad, extent), rad, extent) == clamp1(a, rad, extent),
{
}

/// An immutable 2D point or direction in milli-units.
#[derive(Clone, Copy, PartialEq, Eq, Structural, Debug)]
pub struct Vec2 {
    pub x: i64,
    pub y: i64,
}

impl Vec2 {
    /// Both coordinates lie within `b` of zero.
    pub open spec fn bounded(self, b: int) -> bool {
        -b <= self.x <= b && -b <= self.y <= b
    }

    /// The squared length, exact in milli-units squared.
    pub open spec fn len2_spec(self) -> int {
        self.x * self.x + self.y * self.y
    }

    /// The zero vector.
    pub fn zero() -> (r: Vec2)
        ensures
            r.x == 0 && r.y == 0,
    {
        Vec2 { x: 0, y: 0 }
    }

    /// Componentwise sum.
    pub fn add(self, o: Vec2) -> (r: Vec2)
        requires
            i64::MIN <= self.x + o.x <= i64::MAX,
            i64::MIN <= self.y + o.y <= i64::MAX,
        ensures
            r.x == self.x + o.x,
            r.y == self.y + o.y,
    {
        Vec2 { x: self.x + o.x, y: self.y + o.y }
    }

    /// Componentwise difference.
    pub fn sub(self, o: Vec2) -> (r: Vec2)
        requires
            i64::MIN <= self.x - o.x <= i64::MAX,
            i64::MIN <= self.y - o.y <= i64::MAX,
        ensures
            r.x == self.x - o.x,
            r.y == self.y - o.y,
    {
        Vec2 { x: self.x - o.x, y: self.y - o.y }
    }

    /// Scale by the fixed-point factor `s` (milli-units), truncating
    /// toward zero.
    pub fn mul(self, s: i64) -> (r: Vec2)
        requires
            self.bounded(2_000_000_000),
            -2_000_000_000 <= s <= 2_000_000_000,
        ensures
            r.x == scale1(self.x as int, s as int),
            r.y == scale1(self.y as int, s as int),
    {
        Vec2 { x: mul_div(self.x, s, SCALE), y: mul_div(self.y, s, SCALE) }
    }

    /// The squared length.
    pub fn len2(self) -> (r: i64)
        requires
            self.bounded(2_000_000_000),
        ensures
            r == self.len2_spec(),
            r >= 0,
    {
        proof {
            assert(0 <= self.x * self.x <= 4_000_000_000_000_000_000 && 0 <= self.y * self.y
                <= 4_000_000_000_000_000_000) by (nonlinear_arith)
                requires
                    self.bounded(2_000_000_000),
            ;
        }
        self.x * self.x + self.y * self.y
    }

    /// The length: the integer square root of the squared length.
    pub fn len(self) -> (r: i64)
        requires
            self.bounded(2_000_000_000),
        ensures
            is_sqrt(self.len2_spec(), r as int),
            r == sqrt_of(self.len2_spec()),
            0 <= r <= 4_000_000_000,
    {
        let l2 = self.len2();
        let r = isqrt(l2 as u64);
        proof {
            lemma_sqrt_exists(l2 as nat);
            lemma_sqrt_unique(l2 as int, r as int, sqrt_of(l2 as int));
            assert(r * r <= l2);
            assert(r <= 4_000_000_000) by (nonlinear_arith)
                requires
                    0 <= r,
                    r * r <= l2 <= 9_223_372_036_854_775_807int,
            ;
        }
        r as i64
    }

    /// Normalize to (approximately) unit length, `SCALE` milli-units.
    /// A vector too short to have a direction at this resolution — only
    /// the zero vector, since the guard length is below one milli-unit —
    /// yields the zero vector instead.
    pub fn norm(self) -> (r: Vec2)
        requires
            self.bounded(2_000_000_000),
        ensures
            self.len2_spec() == 0 ==> r.x == 0 && r.y == 0,
            self.len2_spec() != 0 ==> r.x == norm1(self.x as int, sqrt_of(self.len2_spec()))
                && r.y == norm1(self.y as int, sqrt_of(self.len2_spec())),
    {
        let l2 = self.len2();
        if l2 == 0 {
            Vec2 { x: 0, y: 0 }
        } else {
            let l = self.len();
            proof {
                assert(l >= 1) by (nonlinear_arith)
                    requires
                        is_sqrt(self.len2_spec(), l as int),
                        self.len2_spec() >= 1,
                ;
            }
            Vec2 { x: mul_div(self.x, SCALE, l), y: mul_div(self.y, SCALE, l) }
        }
    }
}

/// Clamp a point into the arena rectangle inset by `rad` on every side,
/// each axis independently, the lower bound applied before the upper.
pub fn clamp_rect(p: Vec2, rad: i64) -> (r: Vec2)
    requires
        0 <= rad <= 1_000_000_000,
        p.bounded(2_000_000_000),
    ensures
        r.x == clamp1(p.x as int, rad as int, ARENA_W as int),
        r.y == clamp1(p.y as int, rad as int, ARENA_H as int),
{
    let mut q = p;
    if q.x < rad {
        q.x = rad;
    }
    if q.y < rad {
        q.y = rad;
    }
    if q.x > ARENA_W - rad {
        q.x = ARENA_W - rad;
    }
    if q.y > ARENA_H - rad {
        q.y = ARENA_H - rad;
    }
    q
}

} // verus!
