//! Fixed-point 3-vectors, integer square roots and projection onto a sphere.
use vstd::prelude::*;
use vstd::arithmetic::div_mod::{lemma_fundamental_div_mod, lemma_mod_pos_bound};

verus! {

/// Units of length per unit of the scene.
pub const SCALE: u64 = 10_000_000;

/// Largest magnitude of a stored coordinate.
pub const MAX_COORD: i64 = 2_147_483_648;

/// Largest target radius.
pub const MAX_RADIUS: u64 = 1_073_741_824;

/// Factor applied to a vector before its norm is taken during projection,
/// so that the integer square root is precise.
pub const PROJECTION_SHIFT: u128 = 1_073_741_824;

/// A position or displacement, in units of `1 / SCALE`.
#[derive(Clone, Copy, Debug, PartialEq, Eq, Structural)]
pub struct Vec3 {
    pub x: i64,
    pub y: i64,
    pub z: i64,
}

pub open spec fn abs(v: int) -> int {
    if v < 0 { -v } else { v }
}

/// Division rounding toward zero, for a positive divisor.
pub open spec fn trunc_div(a: int, b: int) -> int {
    if a < 0 { -((-a) / b) } else { a / b }
}

pub open spec fn clamp(v: int, lo: int, hi: int) -> int {
    if v < lo { lo } else if v > hi { hi } else { v }
}

pub open spec fn is_sqrt_floor(n: int, r: int) -> bool {
    0 <= r && r * r <= n && n < (r + 1) * (r + 1)
}

/// The integer square root, rounded down.
pub open spec fn sqrt_floor(n: int) -> int {
    choose|r: int| is_sqrt_floor(n, r)
}

pub open spec fn norm_sq3(x: int, y: int, z: int) -> int {
    x * x + y * y + z * z
}

impl Vec3 {
    pub open spec fn in_box(self) -> bool {
        -MAX_COORD <= self.x <= MAX_COORD && -MAX_COORD <= self.y <= MAX_COORD
            && -MAX_COORD <= self.z <= MAX_COORD
    }

    pub open spec fn norm_sq(self) -> int {
        norm_sq3(self.x as int, self.y as int, self.z as int)
    }

    pub open spec fn is_zero(self) -> bool {
        self.x == 0 && self.y == 0 && self.z == 0
    }

    /// The squared norm of the vector scaled by `PROJECTION_SHIFT`.
    pub open spec fn scaled_norm_sq(self) -> int {
        self.norm_sq() * (PROJECTION_SHIFT * PROJECTION_SHIFT)
    }

    pub fn zero() -> (r: Vec3)
        ensures
            r.is_zero(),
    {
        Vec3 { x: 0, y: 0, z: 0 }
    }
}

/// One coordinate of the projection of `p` onto the sphere of radius `r`,
/// where `n` is the integer norm of the scaled vector.
pub open spec fn projected_coord(c: int, n: int, r: int) -> int {
    trunc_div(c * PROJECTION_SHIFT * r, n)
}

/// `p` rescaled to norm `r`; the zero vector goes to `(r, 0, 0)`.
pub open spec fn projection(p: Vec3, r: int) -> Vec3 {
    if p.is_zero() {
        Vec3 { x: r as i64, y: 0, z: 0 }
    } else {
        let n = sqrt_floor(p.scaled_norm_sq());
        Vec3 {
            x: projected_coord(p.x as int, n, r) as i64,
            y: projected_coord(p.y as int, n, r) as i64,
            z: projected_coord(p.z as int, n, r) as i64,
        }
    }
}

/// How far from the target sphere a projected point may lie, in units
/// (`4 / SCALE`, under 1e-6 of a scene unit).
pub const SHELL_TOLERANCE: u64 = 4;

/// The smallest target radius at which the tolerance is meaningful.
pub const MIN_RADIUS: u64 = 16;

/// `p` lies within `SHELL_TOLERANCE` of the sphere of radius `r`.
pub open spec fn near_sphere(p: Vec3, r: int) -> bool {
    (r - SHELL_TOLERANCE) * (r - SHELL_TOLERANCE) <= p.norm_sq() && p.norm_sq() < (r + 1) * (r
        + 1)
}

pub proof fn lemma_sqrt_floor_unique(n: int, r1: int, r2: int)
    requires
        is_sqrt_floor(n, r1),
        is_sqrt_floor(n, r2),
    ensures
        r1 == r2,
{
    if r1 < r2 {
        assert((r1 + 1) * (r1 + 1) <= r2 * r2) by (nonlinear_arith)
            requires
                0 <= r1 < r2,
        ;
    } else if r2 < r1 {
        assert((r2 + 1) * (r2 + 1) <= r1 * r1) by (nonlinear_arith)
            requires
                0 <= r2 < r1,
        ;
    }
}

pub proof fn lemma_sqrt_floor_is(n: int, r: int)
    requires
        is_sqrt_floor(n, r),
    ensures
        sqrt_floor(n) == r,
{
    let c = sqrt_floor(n);
    assert(is_sqrt_floor(n, c));
    lemma_sqrt_floor_unique(n, r, c);
}

/// Every non-negative integer has an integer square root.
pub proof fn lemma_sqrt_floor_exists(n: int)
    requires
        0 <= n,
    ensures
        is_sqrt_floor(n, sqrt_floor(n)),
    decreases n,
{
    if n == 0 {
        lemma_sqrt_floor_is(0, 0);
    } else {
        lemma_sqrt_floor_exists(n - 1);
        let r = sqrt_floor(n - 1);
        if (r + 1) * (r + 1) <= n {
            assert(n < (r + 2) * (r + 2)) by (nonlinear_arith)
                requires
                    n - 1 < (r + 1) * (r + 1),
                    0 <= r,
            ;
            lemma_sqrt_floor_is(n, r + 1);
        } else {
            lemma_sqrt_floor_is(n, r);
        }
    }
}

/// The integer square root of `n`, rounded down.
pub fn isqrt(n: u128) -> (r: u128)
    ensures
        r == sqrt_floor(n as int),
        is_sqrt_floor(n as int, r as int),
        r < 0x1_0000_0000_0000_0000,
{
    let mut lo: u128 = 0;
    let mut hi: u128 = 0x1_0000_0000_0000_0000;
    assert(hi * hi > n) by (nonlinear_arith)
        requires
            hi == 0x1_0000_0000_0000_0000u128,
            n <= u128::MAX,
    ;
    while hi - lo > 1
        invariant
            lo < hi <= 0x1_0000_0000_0000_0000,
            lo * lo <= n,
            n < hi * hi,
        decreases hi - lo,
    {
        let mid: u128 = lo + (hi - lo) / 2;
        assert(mid * mid < 0x1_0000_0000_0000_0000_0000_0000_0000_0000) by (nonlinear_arith)
            requires
                mid < 0x1_0000_0000_0000_0000,
        ;
        if mid * mid <= n {
            lo = mid;
        } else {
            hi = mid;
        }
    }
    assert(hi == lo + 1);
    proof {
        lemma_sqrt_floor_is(n as int, lo as int);
    }
    lo
}

/// Magnitude of a coordinate as an unsigned number.
pub fn magnitude(v: i64) -> (r: u128)
    ensures
        r == abs(v as int),
{
    if v < 0 {
        (-(v as i128)) as u128
    } else {
        v as u128
    }
}

/// Quotient of `a` by `b`, rounded toward zero.
pub fn div_toward_zero(a: i128, b: u128) -> (q: i128)
    requires
        b > 0,
        abs(a as int) < 0x1000_0000_0000_0000_0000_0000_0000_0000,
    ensures
        q == trunc_div(a as int, b as int),
        abs(q as int) <= abs(a as int),
{
    if a < 0 {
        let m: u128 = (-a) as u128;
        let d: u128 = m / b;
        assert(d <= m) by (nonlinear_arith)
            requires
                d == m / b,
                b > 0,
        ;
        -(d as i128)
    } else {
        let m: u128 = a as u128;
        let d: u128 = m / b;
        assert(d <= m) by (nonlinear_arith)
            requires
                d == m / b,
                b > 0,
        ;
        d as i128
    }
}

/// The quotient `x / d` brackets `x` between consecutive multiples of `d`.
pub proof fn lemma_div_bracket(x: int, d: int)
    requires
        0 <= x,
        0 < d,
    ensures
        (x / d) * d <= x < (x / d + 1) * d,
        0 <= x / d,
{
    lemma_fundamental_div_mod(x, d);
    lemma_mod_pos_bound(x, d);
    let q = x / d;
    let m = x % d;
    assert(q * d <= x < (q + 1) * d && 0 <= q) by (nonlinear_arith)
        requires
            x == d * q + m,
            0 <= m < d,
            0 <= x,
    ;
}

proof fn lemma_sq_mono(u: int, v: int)
    requires
        0 <= u <= v,
    ensures
        u * u <= v * v,
{
    assert(u * u <= v * v) by (nonlinear_arith)
        requires
            0 <= u <= v,
    ;
}

proof fn lemma_sq_strict(u: int, v: int)
    requires
        0 <= u < v,
    ensures
        u * u < v * v,
{
    assert(u * u < v * v) by (nonlinear_arith)
        requires
            0 <= u < v,
    ;
}

proof fn lemma_sq_prod(a: int, b: int)
    ensures
        (a * b) * (a * b) == (a * a) * (b * b),
{
    assert((a * b) * (a * b) == (a * a) * (b * b)) by (nonlinear_arith);
}

proof fn lemma_sum3_times(a: int, b: int, c: int, m: int)
    ensures
        (a + b + c) * m == a * m + b * m + c * m,
{
    assert((a + b + c) * m == a * m + b * m + c * m) by (nonlinear_arith);
}

/// The magnitude of a quotient rounded toward zero.
pub proof fn lemma_abs_trunc_div(a: int, b: int)
    requires
        0 < b,
    ensures
        abs(trunc_div(a, b)) == abs(a) / b,
{
    lemma_div_bracket(abs(a), b);
}

proof fn lemma_abs_scaled(x: int, k: int, r: int)
    requires
        0 <= k,
        0 <= r,
    ensures
        abs(x * k * r) == abs(x) * k * r,
{
    assert(abs(x * k * r) == abs(x) * k * r) by (nonlinear_arith)
        requires
            0 <= k,
            0 <= r,
    ;
}

proof fn lemma_scaled_coord_bound(x: int, r: int)
    requires
        -MAX_COORD <= x <= MAX_COORD,
        0 <= r <= MAX_RADIUS,
    ensures
        abs(x * PROJECTION_SHIFT) <= 0x2000_0000_0000_0000,
        abs(x * PROJECTION_SHIFT * r) < 0x10_0000_0000_0000_0000_0000_0000,
{
    assert(abs(x * PROJECTION_SHIFT) <= 0x2000_0000_0000_0000 && abs(x * PROJECTION_SHIFT * r)
        < 0x10_0000_0000_0000_0000_0000_0000) by (nonlinear_arith)
        requires
            -MAX_COORD <= x <= MAX_COORD,
            0 <= r <= MAX_RADIUS,
    ;
}

/// Rounding a rescaled vector down coordinate by coordinate keeps it within
/// the tolerance of the target radius.
proof fn lemma_rescaled_near(cx: int, cy: int, cz: int, n: int, r: int)
    requires
        0 <= cx,
        0 <= cy,
        0 <= cz,
        16 <= r <= n,
        n * n <= norm_sq3(cx, cy, cz) < (n + 1) * (n + 1),
    ensures
        ({
            let ax = (cx * r) / n;
            let ay = (cy * r) / n;
            let az = (cz * r) / n;
            &&& (r - 4) * (r - 4) <= norm_sq3(ax, ay, az) < (r + 1) * (r + 1)
            &&& 0 <= ax <= r
            &&& 0 <= ay <= r
            &&& 0 <= az <= r
        }),
{
    let ax = (cx * r) / n;
    let ay = (cy * r) / n;
    let az = (cz * r) / n;
    assert(0 <= cx * r && 0 <= cy * r && 0 <= cz * r) by (nonlinear_arith)
        requires
            0 <= cx,
            0 <= cy,
            0 <= cz,
            0 <= r,
    ;
    lemma_div_bracket(cx * r, n);
    lemma_div_bracket(cy * r, n);
    lemma_div_bracket(cz * r, n);
    let s = norm_sq3(cx, cy, cz);
    let a = norm_sq3(ax, ay, az);
    let nn = n * n;
    let rr = r * r;
    assert(nn > 0 && rr > 0) by (nonlinear_arith)
        requires
            nn == n * n,
            rr == r * r,
            16 <= r <= n,
    ;
    // Upper bound: a * n^2 <= s * r^2 < (n + 1)^2 * r^2 <= n^2 * (r + 1)^2.
    assert(0 <= ax && 0 <= ay && 0 <= az);
    assert(ax * n <= cx * r && ay * n <= cy * r && az * n <= cz * r) by (nonlinear_arith)
        requires
            (ax) * n <= cx * r,
            (ay) * n <= cy * r,
            (az) * n <= cz * r,
    ;
    assert(0 <= ax * n && 0 <= ay * n && 0 <= az * n) by (nonlinear_arith)
        requires
            0 <= ax,
            0 <= ay,
            0 <= az,
            0 < n,
    ;
    lemma_sq_mono(ax * n, cx * r);
    lemma_sq_mono(ay * n, cy * r);
    lemma_sq_mono(az * n, cz * r);
    lemma_sq_prod(ax, n);
    lemma_sq_prod(ay, n);
    lemma_sq_prod(az, n);
    lemma_sq_prod(cx, r);
    lemma_sq_prod(cy, r);
    lemma_sq_prod(cz, r);
    lemma_sum3_times(ax * ax, ay * ay, az * az, nn);
    lemma_sum3_times(cx * cx, cy * cy, cz * cz, rr);
    assert(a * nn <= s * rr);
    lemma_sq_prod(n + 1, r);
    lemma_sq_prod(n, r + 1);
    assert((n + 1) * r <= n * (r + 1)) by (nonlinear_arith)
        requires
            0 <= r <= n,
    ;
    assert(0 <= (n + 1) * r) by (nonlinear_arith)
        requires
            0 <= r <= n,
    ;
    lemma_sq_mono((n + 1) * r, n * (r + 1));
    assert(s * rr < ((n + 1) * (n + 1)) * rr) by (nonlinear_arith)
        requires
            s < (n + 1) * (n + 1),
            rr > 0,
    ;
    assert(a * nn < nn * ((r + 1) * (r + 1)));
    assert(a < (r + 1) * (r + 1)) by (nonlinear_arith)
        requires
            a * nn < nn * ((r + 1) * (r + 1)),
            nn > 0,
    ;
    assert(ax <= r && ay <= r && az <= r) by (nonlinear_arith)
        requires
            a == ax * ax + ay * ay + az * az,
            a < (r + 1) * (r + 1),
            0 <= ax,
            0 <= ay,
            0 <= az,
            0 <= r,
    ;
    // Lower bound: (ax + 1)^2 + (ay + 1)^2 + (az + 1)^2 > r^2.
    let b = norm_sq3(ax + 1, ay + 1, az + 1);
    assert(0 <= cx * r && 0 <= cy * r && 0 <= cz * r);
    lemma_sq_strict(cx * r, (ax + 1) * n);
    lemma_sq_strict(cy * r, (ay + 1) * n);
    lemma_sq_strict(cz * r, (az + 1) * n);
    lemma_sq_prod(ax + 1, n);
    lemma_sq_prod(ay + 1, n);
    lemma_sq_prod(az + 1, n);
    lemma_sum3_times((ax + 1) * (ax + 1), (ay + 1) * (ay + 1), (az + 1) * (az + 1), nn);
    assert(b * nn > s * rr);
    assert(s * rr >= nn * rr) by (nonlinear_arith)
        requires
            s >= nn,
            rr >= 0,
    ;
    assert(b > rr) by (nonlinear_arith)
        requires
            b * nn > nn * rr,
            nn > 0,
    ;
    assert((r - 4) * (r - 4) <= a) by (nonlinear_arith)
        requires
            b == (ax + 1) * (ax + 1) + (ay + 1) * (ay + 1) + (az + 1) * (az + 1),
            a == ax * ax + ay * ay + az * az,
            b > r * r,
            ax <= r,
            ay <= r,
            az <= r,
            16 <= r,
    ;
}

/// `p` rescaled onto the sphere of radius `r`.
pub fn project(p: Vec3, r: u64) -> (q: Vec3)
    requires
        p.in_box(),
        MIN_RADIUS <= r <= MAX_RADIUS,
    ensures
        q == projection(p, r as int),
        near_sphere(q, r as int),
        q.in_box(),
{
    if p.x == 0 && p.y == 0 && p.z == 0 {
        let q = Vec3 { x: r as i64, y: 0, z: 0 };
        assert(q.x as int == r as int);
        assert(q.norm_sq() == r * r) by (nonlinear_arith)
            requires
                q.x as int == r as int,
                q.y == 0,
                q.z == 0,
                q.norm_sq() == norm_sq3(q.x as int, q.y as int, q.z as int),
        ;
        assert((r - 4) * (r - 4) <= r * r < (r + 1) * (r + 1)) by (nonlinear_arith)
            requires
                16 <= r,
        ;
        return q;
    }
    let cx: u128 = magnitude(p.x) * PROJECTION_SHIFT;
    let cy: u128 = magnitude(p.y) * PROJECTION_SHIFT;
    let cz: u128 = magnitude(p.z) * PROJECTION_SHIFT;
    assert(cx * cx + cy * cy + cz * cz < 0x1000_0000_0000_0000_0000_0000_0000_0000) by (
    nonlinear_arith)
        requires
            cx <= 0x2000_0000_0000_0000,
            cy <= 0x2000_0000_0000_0000,
            cz <= 0x2000_0000_0000_0000,
    ;
    let s: u128 = cx * cx + cy * cy + cz * cz;
    assert(s == p.scaled_norm_sq()) by (nonlinear_arith)
        requires
            cx == abs(p.x as int) * PROJECTION_SHIFT,
            cy == abs(p.y as int) * PROJECTION_SHIFT,
            cz == abs(p.z as int) * PROJECTION_SHIFT,
            s == cx * cx + cy * cy + cz * cz,
    ;
    let n: u128 = isqrt(s);
    assert(n >= PROJECTION_SHIFT) by (nonlinear_arith)
        requires
            s < (n + 1) * (n + 1),
            cx * cx <= s,
            cy * cy <= s,
            cz * cz <= s,
            cx >= PROJECTION_SHIFT || cy >= PROJECTION_SHIFT || cz >= PROJECTION_SHIFT,
            0 <= n,
    ;
    let ghost ri = r as int;
    let ghost ni = n as int;
    let ghost ax = (cx as int * ri) / ni;
    let ghost ay = (cy as int * ri) / ni;
    let ghost az = (cz as int * ri) / ni;
    proof {
        lemma_rescaled_near(cx as int, cy as int, cz as int, ni, ri);
    }
    let k: i128 = PROJECTION_SHIFT as i128;
    proof {
        lemma_scaled_coord_bound(p.x as int, r as int);
        lemma_scaled_coord_bound(p.y as int, r as int);
        lemma_scaled_coord_bound(p.z as int, r as int);
    }
    let qx = div_toward_zero(p.x as i128 * k * r as i128, n);
    let qy = div_toward_zero(p.y as i128 * k * r as i128, n);
    let qz = div_toward_zero(p.z as i128 * k * r as i128, n);
    proof {
        lemma_abs_trunc_div(p.x * k * r, ni);
        lemma_abs_trunc_div(p.y * k * r, ni);
        lemma_abs_trunc_div(p.z * k * r, ni);
        lemma_abs_scaled(p.x as int, k as int, ri);
        lemma_abs_scaled(p.y as int, k as int, ri);
        lemma_abs_scaled(p.z as int, k as int, ri);
        assert(cx as int * ri == abs(p.x as int) * k * ri);
        assert(cy as int * ri == abs(p.y as int) * k * ri);
        assert(cz as int * ri == abs(p.z as int) * k * ri);
    }
    let q = Vec3 { x: qx as i64, y: qy as i64, z: qz as i64 };
    assert(q.norm_sq() == norm_sq3(ax, ay, az)) by (nonlinear_arith)
        requires
            abs(qx as int) == ax,
            abs(qy as int) == ay,
            abs(qz as int) == az,
            q.x == qx,
            q.y == qy,
            q.z == qz,
    ;
    q
}

} // verus!
