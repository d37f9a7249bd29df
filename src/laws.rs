//! Properties of the relaxation that relate several definitions.
use vstd::prelude::*;
use crate::vector::{
    abs, lemma_abs_trunc_div, lemma_sqrt_floor_is, norm_sq3, projection, sqrt_floor, trunc_div,
    Vec3, MAX_COORD, PROJECTION_SHIFT,
};
use crate::force::{
    displacement, fits, kick_coord, provisional, shrunk, pair_push, push_coord, repulsion_sum, restore_force,
    valid_particles, Confinement, Particle, RelaxConfig, RESTORE_UNIT, WEIGHT_UNIT,
};
use crate::particles::stepped;

verus! {

/// Coincident particles push each other by exactly zero.
pub proof fn lemma_coincident_pair_no_push(x: Vec3, strength: int)
    ensures
        (pair_push(x, x, strength) == (0int, 0int, 0int)),
{
}

/// Shrinking a point of the first axis keeps it on that side of the axis.
proof fn lemma_shrunk_on_axis(a: int)
    requires
        a != 0,
    ensures
        shrunk((a, 0, 0)).y == 0,
        shrunk((a, 0, 0)).z == 0,
        a > 0 ==> 0 < shrunk((a, 0, 0)).x <= MAX_COORD,
        a < 0 ==> -MAX_COORD <= shrunk((a, 0, 0)).x < 0,
    decreases abs(a),
{
    if !fits((a, 0, 0)) {
        assert(trunc_div(0, 2) == 0);
        lemma_shrunk_on_axis(trunc_div(a, 2));
    }
}

/// A point on the first axis projects onto the end of the diameter on its side.
proof fn lemma_project_on_axis(m: int, r: int)
    requires
        0 < abs(m) <= MAX_COORD,
        0 < r,
    ensures
        projection(on_axis(m), r) == on_axis(if m > 0 { r } else { -r }),
{
    let p = on_axis(m);
    let k = PROJECTION_SHIFT as int;
    let n = abs(m) * k;
    assert(p.scaled_norm_sq() == n * n && n * n <= n * n < (n + 1) * (n + 1) && n > 0) by (
    nonlinear_arith)
        requires
            p.scaled_norm_sq() == (m * m + 0 * 0 + 0 * 0) * (k * k),
            n == abs(m) * k,
            k > 0,
            abs(m) > 0,
    ;
    lemma_sqrt_floor_is(p.scaled_norm_sq(), n);
    lemma_abs_trunc_div(m * k * r, n);
    assert(abs(m * k * r) == n * r) by (nonlinear_arith)
        requires
            n == abs(m) * k,
            k > 0,
            r > 0,
    ;
    vstd::arithmetic::div_mod::lemma_div_by_multiple(r, n);
    assert(n * r == r * n) by (nonlinear_arith);
    assert(0 * k * r == 0 && 0int / n == 0) by (nonlinear_arith)
        requires
            n > 0,
    ;
    assert(m > 0 ==> m * k * r > 0) by (nonlinear_arith)
        requires
            k > 0,
            r > 0,
    ;
    assert(m < 0 ==> m * k * r < 0) by (nonlinear_arith)
        requires
            k > 0,
            r > 0,
    ;
    assert(abs(trunc_div(m * k * r, n)) == r);
    assert(sqrt_floor(p.scaled_norm_sq()) == n);
}

/// Zero-force symmetry: two particles of equal weight at the two ends of a
/// diameter along the first axis, under hard confinement and at temperature
/// zero, are a fixed point of the relaxation step.
pub proof fn lemma_antipodal_pair_is_fixed(ps: Seq<Particle>, cfg: RelaxConfig, noise: Seq<Vec3>)
    requires
        cfg.wf(),
        cfg.confinement == Confinement::Hard,
        valid_particles(ps),
        ps.len() == 2,
        noise.len() == 2,
        ps[0].position == on_axis(cfg.target_radius as int),
        ps[1].position == on_axis(-(cfg.target_radius as int)),
        ps[0].weight == ps[1].weight,
    ensures
        stepped(ps, cfg, 0, noise) == ps,
{
    let r = cfg.target_radius as int;
    let k = cfg.repulsion as int;
    assert(ps[0].wf() && ps[1].wf());
    let s = k * ps[0].weight;
    assert(s >= 0) by (nonlinear_arith)
        requires
            k >= 0,
            ps[0].weight >= 1,
            s == k * ps[0].weight,
    ;
    let d2 = norm_sq_axis(2 * r);
    assert(d2 > 0 && 2 * r * s >= 0) by (nonlinear_arith)
        requires
            d2 == (2 * r) * (2 * r) + 0 * 0 + 0 * 0,
            r > 0,
            s >= 0,
    ;
    // The push on each particle points away from the other along the axis.
    let push = (s * (2 * r)) / (WEIGHT_UNIT * d2);
    assert(push >= 0) by {
        vstd::arithmetic::div_mod::lemma_div_pos_is_pos(s * (2 * r), WEIGHT_UNIT * d2);
    }
    assert(s * (-2 * r) == -(s * (2 * r)) && norm_sq_axis(-2 * r) == d2) by (nonlinear_arith)
        requires
            d2 == norm_sq_axis(2 * r),
    ;
    assert(trunc_div(0 * s, WEIGHT_UNIT * d2) == 0);
    assert(trunc_div(s * 0, WEIGHT_UNIT * d2) == 0) by (nonlinear_arith)
        requires
            WEIGHT_UNIT * d2 > 0,
    ;
    assert(pair_push(ps[0].position, ps[0].position, s) == (0int, 0int, 0int));
    assert(pair_push(ps[1].position, ps[1].position, s) == (0int, 0int, 0int));
    assert(pair_push(ps[0].position, ps[1].position, s) == (push, 0int, 0int));
    assert(pair_push(ps[1].position, ps[0].position, s) == (-push, 0int, 0int));
    assert(k * ps[1].weight == s);
    assert(repulsion_sum(ps, 0, 0, k) == (0int, 0int, 0int));
    assert(repulsion_sum(ps, 0, 1, k) == (0int, 0int, 0int));
    assert(repulsion_sum(ps, 0, 2, k) == (push, 0int, 0int));
    assert(repulsion_sum(ps, 1, 0, k) == (0int, 0int, 0int));
    assert(repulsion_sum(ps, 1, 1, k) == (-push, 0int, 0int));
    assert(repulsion_sum(ps, 1, 2, k) == (-push, 0int, 0int));
    assert forall|u: int| kick_coord(0, u) == 0 by {
        assert(0 * (u - 32768) == 0);
    }
    let p0 = provisional(ps, 0, cfg, 0, noise[0]);
    let p1 = provisional(ps, 1, cfg, 0, noise[1]);
    assert(p0.0 >= r && p0.1 == 0 && p0.2 == 0);
    assert(p1.0 <= -r && p1.1 == 0 && p1.2 == 0);
    lemma_shrunk_on_axis(p0.0);
    lemma_shrunk_on_axis(p1.0);
    let m0 = shrunk(p0);
    let m1 = shrunk(p1);
    assert(m0 == on_axis(m0.x as int));
    assert(m1 == on_axis(m1.x as int));
    lemma_project_on_axis(m0.x as int, r);
    lemma_project_on_axis(m1.x as int, r);
    assert(stepped(ps, cfg, 0, noise) =~= ps);
}

proof fn lemma_trunc_div_odd(a: int, b: int)
    requires
        b > 0,
    ensures
        trunc_div(-a, b) == -trunc_div(a, b),
        a >= 0 ==> trunc_div(a, b) >= 0,
        a <= 0 ==> trunc_div(a, b) <= 0,
{
    assert(0int / b == 0) by (nonlinear_arith)
        requires
            b > 0,
    ;
    if a >= 0 {
        vstd::arithmetic::div_mod::lemma_div_pos_is_pos(a, b);
    } else {
        vstd::arithmetic::div_mod::lemma_div_pos_is_pos(-a, b);
    }
}

/// The opposite of a vector, coordinate by coordinate.
pub open spec fn opposite(v: Vec3) -> Vec3 {
    Vec3 { x: -v.x as i64, y: -v.y as i64, z: -v.z as i64 }
}

/// `f` has, coordinate by coordinate, the sign of `x` (or is zero there).
pub open spec fn same_signs(f: (int, int, int), x: Vec3) -> bool {
    &&& (x.x >= 0 ==> f.0 >= 0) && (x.x <= 0 ==> f.0 <= 0)
    &&& (x.y >= 0 ==> f.1 >= 0) && (x.y <= 0 ==> f.1 <= 0)
    &&& (x.z >= 0 ==> f.2 >= 0) && (x.z <= 0 ==> f.2 <= 0)
}

proof fn lemma_push_coord_signs(d: int, d2: int, s: int)
    requires
        s >= 0,
        d2 >= 0,
    ensures
        push_coord(-d, d2, s) == -push_coord(d, d2, s),
        d >= 0 ==> push_coord(d, d2, s) >= 0,
        d <= 0 ==> push_coord(d, d2, s) <= 0,
{
    if d2 != 0 {
        assert(WEIGHT_UNIT * d2 > 0);
        assert(s * (-d) == -(s * d) && (d >= 0 ==> s * d >= 0) && (d <= 0 ==> s * d <= 0)) by (
        nonlinear_arith)
            requires
                s >= 0,
        ;
        lemma_trunc_div_odd(s * d, WEIGHT_UNIT * d2);
    }
}

/// Two particles of equal weight at `x` and `-x`: the repulsion each feels is
/// exactly the opposite of the other's, and it has in every coordinate the
/// sign of the particle's own position, pointing away from the other along
/// the line through both, up to rounding to whole units.
pub proof fn lemma_antipodal_pushes_are_opposite(ps: Seq<Particle>, k: int)
    requires
        valid_particles(ps),
        ps.len() == 2,
        ps[1].position == opposite(ps[0].position),
        ps[0].weight == ps[1].weight,
        0 <= k,
    ensures
        ({
            let f0 = repulsion_sum(ps, 0, 2, k);
            let f1 = repulsion_sum(ps, 1, 2, k);
            &&& f1 == (-f0.0, -f0.1, -f0.2)
            &&& same_signs(f0, ps[0].position)
        }),
{
    assert(ps[0].wf() && ps[1].wf());
    let x = ps[0].position;
    let s = k * ps[0].weight;
    assert(s >= 0) by (nonlinear_arith)
        requires
            k >= 0,
            ps[0].weight >= 1,
            s == k * ps[0].weight,
    ;
    assert(k * ps[1].weight == s);
    let (a, b, c) = (2 * x.x, 2 * x.y, 2 * x.z);
    let d2 = norm_sq3(a, b, c);
    assert(norm_sq3(-a, -b, -c) == d2 && d2 >= 0) by (nonlinear_arith)
        requires
            d2 == norm_sq3(a, b, c),
    ;
    lemma_push_coord_signs(a, d2, s);
    lemma_push_coord_signs(b, d2, s);
    lemma_push_coord_signs(c, d2, s);
    assert(push_coord(0, 0, s) == 0);
    assert(pair_push(x, x, s) == (0int, 0int, 0int));
    assert(pair_push(ps[1].position, ps[1].position, s) == (0int, 0int, 0int));
    assert(pair_push(x, ps[1].position, s) == (push_coord(a, d2, s), push_coord(b, d2, s),
        push_coord(c, d2, s)));
    assert(pair_push(ps[1].position, x, s) == (push_coord(-a, d2, s), push_coord(-b, d2, s),
        push_coord(-c, d2, s)));
    assert(repulsion_sum(ps, 0, 0, k) == (0int, 0int, 0int));
    assert(repulsion_sum(ps, 0, 1, k) == (0int, 0int, 0int));
    assert(repulsion_sum(ps, 1, 0, k) == (0int, 0int, 0int));
    let f = (push_coord(a, d2, s), push_coord(b, d2, s), push_coord(c, d2, s));
    assert(repulsion_sum(ps, 0, 2, k) == f);
    assert(repulsion_sum(ps, 1, 1, k) == (-f.0, -f.1, -f.2));
    assert(repulsion_sum(ps, 1, 2, k) == (-f.0, -f.1, -f.2));
    assert(same_signs(f, x));
}

/// Rounding toward zero leaves a remainder smaller than the divisor.
proof fn lemma_trunc_rem(a: int, b: int)
    requires
        b > 0,
    ensures
        abs(a - b * trunc_div(a, b)) < b,
{
    if a >= 0 {
        crate::vector::lemma_div_bracket(a, b);
        let q = a / b;
        assert(0 <= a - b * q < b) by (nonlinear_arith)
            requires
                q * b <= a < (q + 1) * b,
        ;
    } else {
        crate::vector::lemma_div_bracket(-a, b);
        let q = (-a) / b;
        assert(0 <= -a - b * q < b) by (nonlinear_arith)
            requires
                q * b <= -a < (q + 1) * b,
        ;
        assert(b * trunc_div(a, b) == -(b * q)) by (nonlinear_arith)
            requires
                trunc_div(a, b) == -q,
        ;
    }
}

/// Scaling two coordinates by one factor and rounding each toward zero moves
/// the pair off its line by at most the sum of their magnitudes.
proof fn lemma_cross_trunc(m: int, b: int, xi: int, xj: int)
    requires
        b > 0,
    ensures
        abs(trunc_div(m * xi, b) * xj - trunc_div(m * xj, b) * xi) <= abs(xi) + abs(xj),
{
    let qi = trunc_div(m * xi, b);
    let qj = trunc_div(m * xj, b);
    lemma_trunc_rem(m * xi, b);
    lemma_trunc_rem(m * xj, b);
    let ri = m * xi - b * qi;
    let rj = m * xj - b * qj;
    assert(b * (qi * xj - qj * xi) == rj * xi - ri * xj) by (nonlinear_arith)
        requires
            ri == m * xi - b * qi,
            rj == m * xj - b * qj,
    ;
    assert(abs(rj * xi - ri * xj) <= b * (abs(xi) + abs(xj))) by (nonlinear_arith)
        requires
            abs(ri) < b,
            abs(rj) < b,
    ;
    assert(abs(qi * xj - qj * xi) <= abs(xi) + abs(xj)) by (nonlinear_arith)
        requires
            abs(b * (qi * xj - qj * xi)) <= b * (abs(xi) + abs(xj)),
            b > 0,
    ;
}

/// `d` lies on the line through the origin and `x` up to `e` per pair of
/// coordinates: each component of `d × x` is at most `e` times the sum of
/// the magnitudes of the two coordinates of `x` it involves.
pub open spec fn near_line(d: (int, int, int), x: Vec3, e: int) -> bool {
    &&& abs(d.0 * x.y - d.1 * x.x) <= e * (abs(x.x as int) + abs(x.y as int))
    &&& abs(d.1 * x.z - d.2 * x.y) <= e * (abs(x.y as int) + abs(x.z as int))
    &&& abs(d.2 * x.x - d.0 * x.z) <= e * (abs(x.z as int) + abs(x.x as int))
}

proof fn lemma_near_line_sum(p: (int, int, int), q: (int, int, int), x: Vec3)
    requires
        near_line(p, x, 1),
        near_line(q, x, 1),
    ensures
        near_line((p.0 + q.0, p.1 + q.1, p.2 + q.2), x, 2),
{
    let (a, b, c) = (x.x as int, x.y as int, x.z as int);
    assert((p.0 + q.0) * b - (p.1 + q.1) * a == (p.0 * b - p.1 * a) + (q.0 * b - q.1 * a)) by (
    nonlinear_arith);
    assert((p.1 + q.1) * c - (p.2 + q.2) * b == (p.1 * c - p.2 * b) + (q.1 * c - q.2 * b)) by (
    nonlinear_arith);
    assert((p.2 + q.2) * a - (p.0 + q.0) * c == (p.2 * a - p.0 * c) + (q.2 * a - q.0 * c)) by (
    nonlinear_arith);
}

proof fn lemma_rounded_multiple_near_line(m: int, b: int, x: Vec3)
    requires
        b > 0,
    ensures
        near_line(
            (
                trunc_div(m * x.x, b),
                trunc_div(m * x.y, b),
                trunc_div(m * x.z, b),
            ),
            x,
            1,
        ),
{
    lemma_cross_trunc(m, b, x.x as int, x.y as int);
    lemma_cross_trunc(m, b, x.y as int, x.z as int);
    lemma_cross_trunc(m, b, x.z as int, x.x as int);
}

/// Two particles of equal weight at `x` and `-x`, at temperature zero, in
/// either confinement mode: their displacements are exact opposites, and each
/// lies on the line through both particles up to rounding, which moves it off
/// that line by under two units per coordinate (`near_line` with `e == 2`).
pub proof fn lemma_antipodal_moves_stay_on_line(
    ps: Seq<Particle>,
    cfg: RelaxConfig,
    u0: Vec3,
    u1: Vec3,
)
    requires
        cfg.wf(),
        valid_particles(ps),
        ps.len() == 2,
        ps[1].position == opposite(ps[0].position),
        ps[0].weight == ps[1].weight,
    ensures
        ({
            let d0 = displacement(ps, 0, cfg, 0, u0);
            let d1 = displacement(ps, 1, cfg, 0, u1);
            &&& d1 == (-d0.0, -d0.1, -d0.2)
            &&& near_line(d0, ps[0].position, 2)
        }),
{
    let x = ps[0].position;
    let y = ps[1].position;
    assert(ps[0].wf() && ps[1].wf());
    let k = cfg.repulsion as int;
    lemma_antipodal_pushes_are_opposite(ps, k);
    assert forall|v: int| kick_coord(0, v) == 0 by {
        assert(0 * (v - 32768) == 0);
    }
    // The push is a rounded multiple of `x`.
    let s = k * ps[0].weight;
    let d2 = norm_sq3(2 * x.x, 2 * x.y, 2 * x.z);
    let f0 = repulsion_sum(ps, 0, 2, k);
    assert(k * ps[1].weight == s);
    assert(pair_push(x, x, s) == (0int, 0int, 0int));
    assert(repulsion_sum(ps, 0, 0, k) == (0int, 0int, 0int));
    assert(repulsion_sum(ps, 0, 1, k) == (0int, 0int, 0int));
    assert(f0 == pair_push(x, y, s));
    assert(norm_sq3(x.x - y.x, x.y - y.y, x.z - y.z) == d2);
    if d2 == 0 {
        assert(x.x == 0 && x.y == 0 && x.z == 0) by (nonlinear_arith)
            requires
                d2 == (2 * x.x) * (2 * x.x) + (2 * x.y) * (2 * x.y) + (2 * x.z) * (2 * x.z),
                d2 == 0,
        ;
    } else {
        assert(d2 > 0) by (nonlinear_arith)
            requires
                d2 == (2 * x.x) * (2 * x.x) + (2 * x.y) * (2 * x.y) + (2 * x.z) * (2 * x.z),
                d2 != 0,
        ;
        assert(s * (2 * x.x) == (2 * s) * x.x && s * (2 * x.y) == (2 * s) * x.y && s * (2 * x.z)
            == (2 * s) * x.z) by (nonlinear_arith);
        lemma_rounded_multiple_near_line(2 * s, WEIGHT_UNIT * d2, x);
    }
    assert(near_line(f0, x, 1));
    // The restoring force is a rounded multiple of the position too, and odd.
    let r0 = restore_force(x, cfg);
    let r1 = restore_force(y, cfg);
    match cfg.confinement {
        Confinement::Hard => {
            assert(near_line(r0, x, 1));
        },
        Confinement::Soft { restore } => {
            assert(y.norm_sq() == x.norm_sq()) by (nonlinear_arith)
                requires
                    y.x == -x.x,
                    y.y == -x.y,
                    y.z == -x.z,
            ;
            let n = sqrt_floor(x.norm_sq());
            assert(x.norm_sq() >= 0) by (nonlinear_arith)
                requires
                    x.norm_sq() == x.x * x.x + x.y * x.y + x.z * x.z,
            ;
            crate::vector::lemma_sqrt_floor_exists(x.norm_sq());
            if n != 0 {
                assert(n * RESTORE_UNIT > 0) by (nonlinear_arith)
                    requires
                        n != 0,
                        n == sqrt_floor(x.norm_sq()),
                        n >= 0,
                ;
                let m = restore * (cfg.target_radius - n);
                lemma_rounded_multiple_near_line(m, n * RESTORE_UNIT, x);
                assert(restore * (cfg.target_radius - n) * (-x.x) == -(m * x.x) && restore * (
                cfg.target_radius - n) * (-x.y) == -(m * x.y) && restore * (cfg.target_radius - n)
                    * (-x.z) == -(m * x.z)) by (nonlinear_arith)
                    requires
                        m == restore * (cfg.target_radius - n),
                ;
                lemma_trunc_div_odd(m * x.x, n * RESTORE_UNIT);
                lemma_trunc_div_odd(m * x.y, n * RESTORE_UNIT);
                lemma_trunc_div_odd(m * x.z, n * RESTORE_UNIT);
            }
            assert(r1 == (-r0.0, -r0.1, -r0.2));
            assert(near_line(r0, x, 1));
        },
    }
    lemma_near_line_sum(f0, r0, x);
}

/// The point at `v` on the first axis.
pub open spec fn on_axis(v: int) -> Vec3 {
    Vec3 { x: v as i64, y: 0, z: 0 }
}

spec fn norm_sq_axis(d: int) -> int {
    d * d + 0 * 0 + 0 * 0
}

} // verus!
