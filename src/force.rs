//! The force model: the displacement of one particle in one relaxation step.
use vstd::prelude::*;
use crate::vector::{
    abs, clamp, div_toward_zero, isqrt, lemma_abs_trunc_div, magnitude, near_sphere, norm_sq3, project,
    projection, sqrt_floor, trunc_div,
    Vec3, MAX_COORD, MAX_RADIUS, MIN_RADIUS,
};
use crate::schedule::MAX_TEMPERATURE;

verus! {

/// Weights are counted in thousandths.
pub const WEIGHT_UNIT: u64 = 1000;

/// Largest weight of a particle, in thousandths.
pub const MAX_WEIGHT: u64 = 16_777_216;

/// Largest repulsion constant, in units of length squared.
pub const MAX_REPULSION: u64 = 1_125_899_906_842_624;

/// Restoring strengths are counted in thousandths.
pub const RESTORE_UNIT: u64 = 1000;

/// Largest restoring strength, in thousandths.
pub const MAX_RESTORE: u64 = 1_048_576;

/// Random draws for the kick lie in `0 ..= NOISE_RANGE`.
pub const NOISE_RANGE: u64 = 65_536;

/// The centre of the range of random draws.
pub const NOISE_HALF: u64 = 32_768;

/// Largest number of particles in a set.
pub const MAX_PARTICLES: usize = 65_536;

/// Bound on the push that one particle gives another.
pub const MAX_PUSH: u128 = 0x400_0000_0000_0000_0000;

/// One point mass.
#[derive(Clone, Copy, Debug, PartialEq, Eq, Structural)]
pub struct Particle {
    pub position: Vec3,
    pub weight: u64,
}

impl Particle {
    pub open spec fn wf(self) -> bool {
        self.position.in_box() && 1 <= self.weight <= MAX_WEIGHT
    }
}

/// How particles are held to the target sphere.
#[derive(Clone, Copy, Debug, PartialEq, Eq, Structural)]
pub enum Confinement {
    /// Every particle is rescaled onto the sphere after each step.
    Hard,
    /// A force of strength `restore` thousandths pulls each particle toward the
    /// sphere; particles may fill the ball.
    Soft { restore: u64 },
}

/// The parameters of a relaxation step.
#[derive(Clone, Copy, Debug, PartialEq, Eq, Structural)]
pub struct RelaxConfig {
    pub target_radius: u64,
    pub repulsion: u64,
    pub confinement: Confinement,
}

impl RelaxConfig {
    pub open spec fn wf(self) -> bool {
        &&& MIN_RADIUS <= self.target_radius <= MAX_RADIUS
        &&& self.repulsion <= MAX_REPULSION
        &&& match self.confinement {
            Confinement::Hard => true,
            Confinement::Soft { restore } => restore <= MAX_RESTORE,
        }
    }
}

impl RelaxConfig {
    /// Whether the parameters are within the allowed ranges.
    pub fn is_valid(&self) -> (r: bool)
        ensures
            r == self.wf(),
    {
        let restore_ok = match self.confinement {
            Confinement::Hard => true,
            Confinement::Soft { restore } => restore <= MAX_RESTORE,
        };
        MIN_RADIUS <= self.target_radius && self.target_radius <= MAX_RADIUS && self.repulsion
            <= MAX_REPULSION && restore_ok
    }

    /// Particles of unit weight held on a sphere of radius 2 with repulsion 0.5.
    pub fn surface_preset() -> (r: RelaxConfig)
        ensures
            r.wf(),
            r == (RelaxConfig {
                target_radius: 20_000_000,
                repulsion: 50_000_000_000_000,
                confinement: Confinement::Hard,
            }),
    {
        RelaxConfig {
            target_radius: 20_000_000,
            repulsion: 50_000_000_000_000,
            confinement: Confinement::Hard,
        }
    }

    /// Weighted particles filling a ball of radius 2 with repulsion 0.05 and
    /// restoring strength 0.5.
    pub fn volume_preset() -> (r: RelaxConfig)
        ensures
            r.wf(),
            r == (RelaxConfig {
                target_radius: 20_000_000,
                repulsion: 5_000_000_000_000,
                confinement: Confinement::Soft { restore: 500 },
            }),
    {
        RelaxConfig {
            target_radius: 20_000_000,
            repulsion: 5_000_000_000_000,
            confinement: Confinement::Soft { restore: 500 },
        }
    }
}

pub open spec fn valid_particles(ps: Seq<Particle>) -> bool {
    &&& 1 <= ps.len() <= MAX_PARTICLES
    &&& forall|i: int| 0 <= i < ps.len() ==> #[trigger] ps[i].wf()
}

pub open spec fn valid_noise(u: Vec3) -> bool {
    0 <= u.x <= NOISE_RANGE && 0 <= u.y <= NOISE_RANGE && 0 <= u.z <= NOISE_RANGE
}

/// One coordinate of the inverse-square push: `strength * d / |d|^2`, with
/// `strength` in thousandths; coincident particles give no push.
pub open spec fn push_coord(d: int, dist_sq: int, strength: int) -> int {
    if dist_sq == 0 {
        0
    } else {
        trunc_div(strength * d, WEIGHT_UNIT * dist_sq)
    }
}

/// The push that a particle at `y` of the given strength gives one at `x`.
pub open spec fn pair_push(x: Vec3, y: Vec3, strength: int) -> (int, int, int) {
    let dx = x.x - y.x;
    let dy = x.y - y.y;
    let dz = x.z - y.z;
    let d2 = norm_sq3(dx, dy, dz);
    (push_coord(dx, d2, strength), push_coord(dy, d2, strength), push_coord(dz, d2, strength))
}

/// The sum of the pushes on particle `i` from particles `0 .. upto`.
pub open spec fn repulsion_sum(ps: Seq<Particle>, i: int, upto: int, k: int) -> (int, int, int)
    decreases upto,
{
    if upto <= 0 {
        (0, 0, 0)
    } else {
        let prev = repulsion_sum(ps, i, upto - 1, k);
        let p = pair_push(
            ps[i].position,
            ps[upto - 1].position,
            k * ps[upto - 1].weight,
        );
        (prev.0 + p.0, prev.1 + p.1, prev.2 + p.2)
    }
}

/// One coordinate of the random kick: the draw, centred, scaled by the
/// temperature over the range of draws.
pub open spec fn kick_coord(t: int, u: int) -> int {
    trunc_div(t * (u - NOISE_HALF), NOISE_RANGE as int)
}

/// One coordinate of the soft restoring force on a particle at coordinate `c`
/// whose integer norm is `n`.
pub open spec fn restore_coord(c: int, n: int, r: int, restore: int) -> int {
    if n == 0 {
        0
    } else {
        trunc_div(restore * (r - n) * c, n * RESTORE_UNIT)
    }
}

pub open spec fn restore_force(x: Vec3, cfg: RelaxConfig) -> (int, int, int) {
    match cfg.confinement {
        Confinement::Hard => (0, 0, 0),
        Confinement::Soft { restore } => {
            let n = sqrt_floor(x.norm_sq());
            let r = cfg.target_radius as int;
            (
                restore_coord(x.x as int, n, r, restore as int),
                restore_coord(x.y as int, n, r, restore as int),
                restore_coord(x.z as int, n, r, restore as int),
            )
        },
    }
}

/// The displacement of particle `i` before confinement: kick, repulsion and
/// restoring force.
pub open spec fn displacement(ps: Seq<Particle>, i: int, cfg: RelaxConfig, t: int, u: Vec3) -> (
    int,
    int,
    int,
) {
    let x = ps[i].position;
    let rep = repulsion_sum(ps, i, ps.len() as int, cfg.repulsion as int);
    let res = restore_force(x, cfg);
    (
        kick_coord(t, u.x as int) + rep.0 + res.0,
        kick_coord(t, u.y as int) + rep.1 + res.1,
        kick_coord(t, u.z as int) + rep.2 + res.2,
    )
}

/// The position of particle `i` after a step before confinement: its old
/// position moved by its displacement.
pub open spec fn provisional(ps: Seq<Particle>, i: int, cfg: RelaxConfig, t: int, u: Vec3) -> (
    int,
    int,
    int,
) {
    let x = ps[i].position;
    let d = displacement(ps, i, cfg, t, u);
    (x.x + d.0, x.y + d.1, x.z + d.2)
}

/// The provisional position kept in the box coordinate by coordinate.
pub open spec fn moved_position(ps: Seq<Particle>, i: int, cfg: RelaxConfig, t: int, u: Vec3) -> Vec3 {
    let p = provisional(ps, i, cfg, t, u);
    Vec3 {
        x: clamp(p.0, -MAX_COORD, MAX_COORD as int) as i64,
        y: clamp(p.1, -MAX_COORD, MAX_COORD as int) as i64,
        z: clamp(p.2, -MAX_COORD, MAX_COORD as int) as i64,
    }
}

pub open spec fn fits(v: (int, int, int)) -> bool {
    abs(v.0) <= MAX_COORD && abs(v.1) <= MAX_COORD && abs(v.2) <= MAX_COORD
}

/// `v` halved, coordinates together, until it fits in the box; its direction
/// is kept up to rounding.
pub open spec fn shrunk(v: (int, int, int)) -> Vec3
    decreases abs(v.0) + abs(v.1) + abs(v.2),
{
    if fits(v) {
        Vec3 { x: v.0 as i64, y: v.1 as i64, z: v.2 as i64 }
    } else {
        shrunk((trunc_div(v.0, 2), trunc_div(v.1, 2), trunc_div(v.2, 2)))
    }
}

/// The position of particle `i` after a step with temperature `t` and draws `u`.
pub open spec fn next_position(ps: Seq<Particle>, i: int, cfg: RelaxConfig, t: int, u: Vec3) -> Vec3 {
    match cfg.confinement {
        Confinement::Hard => projection(
            shrunk(provisional(ps, i, cfg, t, u)),
            cfg.target_radius as int,
        ),
        Confinement::Soft { .. } => moved_position(ps, i, cfg, t, u),
    }
}

proof fn lemma_abs_le_sq(d: int)
    ensures
        abs(d) <= d * d,
{
    assert(abs(d) <= d * d) by (nonlinear_arith);
}

/// The push of one particle on another.
pub fn push_between(x: Vec3, y: Vec3, strength: u128) -> (f: (i128, i128, i128))
    requires
        x.in_box(),
        y.in_box(),
        strength <= MAX_PUSH,
    ensures
        f.0 == pair_push(x, y, strength as int).0,
        f.1 == pair_push(x, y, strength as int).1,
        f.2 == pair_push(x, y, strength as int).2,
        abs(f.0 as int) <= strength,
        abs(f.1 as int) <= strength,
        abs(f.2 as int) <= strength,
{
    let dx: i128 = x.x as i128 - y.x as i128;
    let dy: i128 = x.y as i128 - y.y as i128;
    let dz: i128 = x.z as i128 - y.z as i128;
    assert(0 <= dx * dx <= 0x1_0000_0000_0000_0000 && 0 <= dy * dy <= 0x1_0000_0000_0000_0000
        && 0 <= dz * dz <= 0x1_0000_0000_0000_0000) by (nonlinear_arith)
        requires
            -0x1_0000_0000 <= dx <= 0x1_0000_0000,
            -0x1_0000_0000 <= dy <= 0x1_0000_0000,
            -0x1_0000_0000 <= dz <= 0x1_0000_0000,
    ;
    let d2: i128 = dx * dx + dy * dy + dz * dz;
    if d2 == 0 {
        return (0, 0, 0);
    }
    proof {
        lemma_abs_le_sq(dx as int);
        lemma_abs_le_sq(dy as int);
        lemma_abs_le_sq(dz as int);
        assert(dx * dx >= 0 && dy * dy >= 0 && dz * dz >= 0) by (nonlinear_arith);
    }
    let den: u128 = WEIGHT_UNIT as u128 * d2 as u128;
    let s: i128 = strength as i128;
    let fx = push_part(s, dx, den);
    let fy = push_part(s, dy, den);
    let fz = push_part(s, dz, den);
    (fx, fy, fz)
}

/// `trunc_div(s * d, den)`, bounded by `s` when `|d| * WEIGHT_UNIT <= den`.
fn push_part(s: i128, d: i128, den: u128) -> (q: i128)
    requires
        0 <= s <= MAX_PUSH,
        abs(d as int) <= 0x1_0000_0000,
        den > 0,
        abs(d as int) * WEIGHT_UNIT <= den,
    ensures
        q == trunc_div(s * d, den as int),
        abs(q as int) <= s,
{
    assert(abs(s * d) == s * abs(d as int) && s * abs(d as int) <= s * 0x1_0000_0000 && s * abs(
        d as int,
    ) <= s * den) by (nonlinear_arith)
        requires
            0 <= s,
            abs(d as int) <= 0x1_0000_0000,
            abs(d as int) <= abs(d as int) * WEIGHT_UNIT <= den,
    ;
    let q = div_toward_zero(s * d, den);
    proof {
        lemma_abs_trunc_div(s * d, den as int);
        vstd::arithmetic::div_mod::lemma_div_is_ordered(s * abs(d as int), s * den, den as int);
        vstd::arithmetic::div_mod::lemma_div_by_multiple(s as int, den as int);
    }
    q
}

/// The total push on particle `i` from every particle of the set.
pub fn repulsion_on(ps: &Vec<Particle>, i: usize, repulsion: u64) -> (f: (i128, i128, i128))
    requires
        valid_particles(ps@),
        i < ps.len(),
        repulsion <= MAX_REPULSION,
    ensures
        f.0 == repulsion_sum(ps@, i as int, ps.len() as int, repulsion as int).0,
        f.1 == repulsion_sum(ps@, i as int, ps.len() as int, repulsion as int).1,
        f.2 == repulsion_sum(ps@, i as int, ps.len() as int, repulsion as int).2,
        abs(f.0 as int) <= ps.len() * MAX_PUSH,
        abs(f.1 as int) <= ps.len() * MAX_PUSH,
        abs(f.2 as int) <= ps.len() * MAX_PUSH,
{
    let mut ax: i128 = 0;
    let mut ay: i128 = 0;
    let mut az: i128 = 0;
    let mut j: usize = 0;
    while j < ps.len()
        invariant
            valid_particles(ps@),
            i < ps.len(),
            repulsion <= MAX_REPULSION,
            j <= ps.len(),
            ax == repulsion_sum(ps@, i as int, j as int, repulsion as int).0,
            ay == repulsion_sum(ps@, i as int, j as int, repulsion as int).1,
            az == repulsion_sum(ps@, i as int, j as int, repulsion as int).2,
            abs(ax as int) <= j * MAX_PUSH,
            abs(ay as int) <= j * MAX_PUSH,
            abs(az as int) <= j * MAX_PUSH,
        decreases ps.len() - j,
    {
        assert(ps@[i as int].wf() && ps@[j as int].wf());
        let w: u64 = ps[j].weight;
        assert(repulsion as u128 * w as u128 <= MAX_PUSH) by (nonlinear_arith)
            requires
                repulsion <= MAX_REPULSION,
                w <= MAX_WEIGHT,
        ;
        let strength: u128 = repulsion as u128 * w as u128;
        let f = push_between(ps[i].position, ps[j].position, strength);
        let ghost p = pair_push(ps@[i as int].position, ps@[j as int].position, strength as int);
        assert(f.0 == p.0 && f.1 == p.1 && f.2 == p.2);
        assert(strength as int == repulsion as int * ps@[j as int].weight);
        ax = ax + f.0;
        ay = ay + f.1;
        az = az + f.2;
        j = j + 1;
    }
    (ax, ay, az)
}

/// One coordinate of the random kick.
pub fn kick_part(t: u64, u: i64) -> (q: i128)
    requires
        t <= MAX_TEMPERATURE,
        0 <= u <= NOISE_RANGE,
    ensures
        q == kick_coord(t as int, u as int),
        abs(q as int) <= 0x8000_0000_0000,
{
    let c: i128 = u as i128 - NOISE_HALF as i128;
    assert(abs(t * c) <= 0x8000_0000_0000) by (nonlinear_arith)
        requires
            0 <= t <= MAX_TEMPERATURE,
            -32768 <= c <= 32768,
    ;
    div_toward_zero(t as i128 * c, NOISE_RANGE as u128)
}

/// One coordinate of the soft restoring force.
pub fn restore_part(c: i64, n: u128, r: u64, restore: u64) -> (q: i128)
    requires
        -MAX_COORD <= c <= MAX_COORD,
        n <= 0x2_0000_0000,
        r <= MAX_RADIUS,
        restore <= MAX_RESTORE,
    ensures
        q == restore_coord(c as int, n as int, r as int, restore as int),
        abs(q as int) <= 0x400_0000_0000_0000_0000_0000,
{
    if n == 0 {
        return 0;
    }
    let gap: i128 = r as i128 - n as i128;
    assert(abs(restore * gap) <= 0x40_0000_0000_0000 && abs(restore * gap * c)
        <= 0x400_0000_0000_0000_0000_0000) by (nonlinear_arith)
        requires
            0 <= restore <= MAX_RESTORE,
            -0x4_0000_0000 <= gap <= 0x4_0000_0000,
            -MAX_COORD <= c <= MAX_COORD,
    ;
    assert(n * RESTORE_UNIT <= 0x1_0000_0000_0000) by (nonlinear_arith)
        requires
            n <= 0x2_0000_0000,
    ;
    div_toward_zero(restore as i128 * gap * c as i128, n * RESTORE_UNIT as u128)
}

/// A coordinate kept within the box.
pub fn clamp_coord(v: i128) -> (c: i64)
    ensures
        c == clamp(v as int, -MAX_COORD, MAX_COORD as int),
{
    if v < -(MAX_COORD as i128) {
        -MAX_COORD
    } else if v > MAX_COORD as i128 {
        MAX_COORD
    } else {
        v as i64
    }
}

/// The position of particle `i` after a step, before confinement.
pub fn provisional_of(ps: &Vec<Particle>, i: usize, cfg: &RelaxConfig, t: u64, u: Vec3) -> (p: (
    i128,
    i128,
    i128,
))
    requires
        valid_particles(ps@),
        i < ps.len(),
        cfg.wf(),
        t <= MAX_TEMPERATURE,
        valid_noise(u),
    ensures
        p.0 == provisional(ps@, i as int, *cfg, t as int, u).0,
        p.1 == provisional(ps@, i as int, *cfg, t as int, u).1,
        p.2 == provisional(ps@, i as int, *cfg, t as int, u).2,
        abs(p.0 as int) < 0x1000_0000_0000_0000_0000_0000,
        abs(p.1 as int) < 0x1000_0000_0000_0000_0000_0000,
        abs(p.2 as int) < 0x1000_0000_0000_0000_0000_0000,
{
    assert(ps@[i as int].wf());
    let x = ps[i].position;
    let rep = repulsion_on(ps, i, cfg.repulsion);
    let (rx, ry, rz): (i128, i128, i128) = match cfg.confinement {
        Confinement::Hard => (0, 0, 0),
        Confinement::Soft { restore } => {
            let mx = magnitude(x.x);
            let my = magnitude(x.y);
            let mz = magnitude(x.z);
            assert(mx * mx + my * my + mz * mz <= 0xC000_0000_0000_0000 && mx * mx + my * my + mz
                * mz == x.norm_sq()) by (nonlinear_arith)
                requires
                    mx == abs(x.x as int),
                    my == abs(x.y as int),
                    mz == abs(x.z as int),
                    mx <= MAX_COORD,
                    my <= MAX_COORD,
                    mz <= MAX_COORD,
            ;
            let n = isqrt(mx * mx + my * my + mz * mz);
            assert(n == sqrt_floor(x.norm_sq()));
            assert(n <= 0x2_0000_0000) by (nonlinear_arith)
                requires
                    n * n <= 0xC000_0000_0000_0000,
                    0 <= n,
            ;
            (
                restore_part(x.x, n, cfg.target_radius, restore),
                restore_part(x.y, n, cfg.target_radius, restore),
                restore_part(x.z, n, cfg.target_radius, restore),
            )
        },
    };
    assert(rx == restore_force(x, *cfg).0 && ry == restore_force(x, *cfg).1 && rz
        == restore_force(x, *cfg).2);
    let kx = kick_part(t, u.x);
    let ky = kick_part(t, u.y);
    let kz = kick_part(t, u.z);
    (x.x as i128 + kx + rep.0 + rx, x.y as i128 + ky + rep.1 + ry, x.z as i128 + kz + rep.2 + rz)
}

/// `v` halved, coordinates together, until it fits in the box.
pub fn shrink(v: (i128, i128, i128)) -> (p: Vec3)
    requires
        abs(v.0 as int) < 0x1000_0000_0000_0000_0000_0000,
        abs(v.1 as int) < 0x1000_0000_0000_0000_0000_0000,
        abs(v.2 as int) < 0x1000_0000_0000_0000_0000_0000,
    ensures
        p == shrunk((v.0 as int, v.1 as int, v.2 as int)),
        p.in_box(),
{
    let (mut a, mut b, mut c) = v;
    let m: i128 = MAX_COORD as i128;
    while a < -m || a > m || b < -m || b > m || c < -m || c > m
        invariant
            abs(a as int) < 0x1000_0000_0000_0000_0000_0000,
            abs(b as int) < 0x1000_0000_0000_0000_0000_0000,
            abs(c as int) < 0x1000_0000_0000_0000_0000_0000,
            m == MAX_COORD,
            shrunk((a as int, b as int, c as int)) == shrunk((v.0 as int, v.1 as int, v.2 as int)),
        decreases abs(a as int) + abs(b as int) + abs(c as int),
    {
        a = div_toward_zero(a, 2);
        b = div_toward_zero(b, 2);
        c = div_toward_zero(c, 2);
    }
    Vec3 { x: a as i64, y: b as i64, z: c as i64 }
}

/// The position of particle `i` after a step with temperature `t` and draws `u`.
pub fn next_position_of(ps: &Vec<Particle>, i: usize, cfg: &RelaxConfig, t: u64, u: Vec3) -> (p: Vec3)
    requires
        valid_particles(ps@),
        i < ps.len(),
        cfg.wf(),
        t <= MAX_TEMPERATURE,
        valid_noise(u),
    ensures
        p == next_position(ps@, i as int, *cfg, t as int, u),
        p.in_box(),
        cfg.confinement == Confinement::Hard ==> near_sphere(p, cfg.target_radius as int),
{
    let w = provisional_of(ps, i, cfg, t, u);
    match cfg.confinement {
        Confinement::Hard => project(shrink(w), cfg.target_radius),
        Confinement::Soft { .. } => Vec3 {
            x: clamp_coord(w.0),
            y: clamp_coord(w.1),
            z: clamp_coord(w.2),
        },
    }
}

} // verus!
