//! The particle set and the relaxation step.
use vstd::prelude::*;
use rand::Rng;
use rand::rngs::StdRng;
use crate::vector::{near_sphere, project, projection, Vec3, MAX_RADIUS, MIN_RADIUS};
use crate::schedule::{Schedule, MAX_TEMPERATURE};
use crate::force::{
    next_position, next_position_of, valid_noise, valid_particles, Confinement, Particle,
    RelaxConfig, MAX_PARTICLES, MAX_WEIGHT, NOISE_HALF, NOISE_RANGE, WEIGHT_UNIT,
};

verus! {

#[verifier::external_type_specification]
#[verifier::external_body]
pub struct ExStdRng(StdRng);

/// Relies on `rand::Rng::gen_range` over an inclusive range: the draw lies in
/// `low ..= high` (the call panics only on an empty range).
#[verifier::external_body]
fn draw_between(rng: &mut StdRng, low: u64, high: u64) -> (r: u64)
    requires
        low <= high,
    ensures
        low <= r <= high,
{
    rng.gen_range(low..=high)
}

/// Why a particle set could not be made.
#[derive(Clone, Copy, Debug, PartialEq, Eq, Structural)]
pub enum SetupError {
    InvalidConfig,
}

/// How the weights of a new set are chosen, in thousandths.
#[derive(Clone, Copy, Debug, PartialEq, Eq, Structural)]
pub enum WeightDistribution {
    /// Every weight is one.
    Constant,
    /// Each weight is drawn from `low ..= high`.
    Uniform { low: u64, high: u64 },
}

impl WeightDistribution {
    pub open spec fn wf(self) -> bool {
        match self {
            WeightDistribution::Constant => true,
            WeightDistribution::Uniform { low, high } => 1 <= low <= high <= MAX_WEIGHT,
        }
    }

    pub open spec fn allows(self, w: u64) -> bool {
        match self {
            WeightDistribution::Constant => w == WEIGHT_UNIT,
            WeightDistribution::Uniform { low, high } => low <= w <= high,
        }
    }
}

/// The conditions under which a new set can be made.
pub open spec fn valid_setup(count: usize, target_radius: u64, weights: WeightDistribution) -> bool {
    &&& 1 <= count <= MAX_PARTICLES
    &&& MIN_RADIUS <= target_radius <= MAX_RADIUS
    &&& weights.wf()
}

/// An ordered set of particles; the index of a particle is its identity.
#[derive(Debug)]
pub struct ParticleSet {
    particles: Vec<Particle>,
}

impl View for ParticleSet {
    type V = Seq<Particle>;

    closed spec fn view(&self) -> Seq<Particle> {
        self.particles@
    }
}

/// The particles after one step with temperature `t` and draws `noise`.
pub open spec fn stepped(
    ps: Seq<Particle>,
    cfg: RelaxConfig,
    t: int,
    noise: Seq<Vec3>,
) -> Seq<Particle> {
    Seq::new(
        ps.len(),
        |i: int| Particle { position: next_position(ps, i, cfg, t, noise[i]), weight: ps[i].weight },
    )
}

impl ParticleSet {
    pub open spec fn wf(&self) -> bool {
        valid_particles(self@)
    }

    /// A set holding the given particles, if there is at least one, not too
    /// many, and each has a position in the box and a positive weight.
    pub fn from_particles(particles: Vec<Particle>) -> (r: Result<ParticleSet, SetupError>)
        ensures
            r is Ok <==> valid_particles(particles@),
            r is Ok ==> r->Ok_0@ == particles@,
    {
        if particles.len() == 0 || particles.len() > MAX_PARTICLES {
            return Err(SetupError::InvalidConfig);
        }
        let mut i: usize = 0;
        while i < particles.len()
            invariant
                i <= particles.len(),
                forall|j: int| 0 <= j < i ==> #[trigger] particles@[j].wf(),
            decreases particles.len() - i,
        {
            let p = particles[i];
            let m = crate::vector::MAX_COORD;
            if !(-m <= p.position.x && p.position.x <= m && -m <= p.position.y && p.position.y
                <= m && -m <= p.position.z && p.position.z <= m && 1 <= p.weight && p.weight
                <= MAX_WEIGHT) {
                assert(!particles@[i as int].wf());
                return Err(SetupError::InvalidConfig);
            }
            i = i + 1;
        }
        Ok(ParticleSet { particles })
    }

    /// The particles, in index order.
    pub fn particles_ref(&self) -> (r: &Vec<Particle>)
        ensures
            r@ == self@,
    {
        &self.particles
    }

    pub fn len(&self) -> (n: usize)
        ensures
            n == self@.len(),
    {
        self.particles.len()
    }

    pub fn particle(&self, i: usize) -> (p: Particle)
        requires
            i < self@.len(),
        ensures
            p == self@[i as int],
    {
        self.particles[i]
    }

    /// The positions, in index order.
    pub fn positions(&self) -> (r: Vec<Vec3>)
        ensures
            r@.len() == self@.len(),
            forall|i: int| 0 <= i < r@.len() ==> r@[i] == #[trigger] self@[i].position,
    {
        let mut r: Vec<Vec3> = Vec::new();
        let mut i: usize = 0;
        while i < self.particles.len()
            invariant
                i <= self@.len(),
                self@ == self.particles@,
                r@.len() == i,
                forall|j: int| 0 <= j < i ==> r@[j] == #[trigger] self@[j].position,
            decreases self@.len() - i,
        {
            r.push(self.particles[i].position);
            i = i + 1;
        }
        r
    }

    /// One relaxation step: every particle moves by the displacement computed
    /// from the positions before the step, then all moves are applied.
    pub fn relax_step(&mut self, cfg: &RelaxConfig, t: u64, noise: &Vec<Vec3>)
        requires
            old(self).wf(),
            cfg.wf(),
            t <= MAX_TEMPERATURE,
            noise@.len() == old(self)@.len(),
            forall|i: int| 0 <= i < noise@.len() ==> valid_noise(#[trigger] noise@[i]),
        ensures
            final(self).wf(),
            final(self)@ == stepped(old(self)@, *cfg, t as int, noise@),
            cfg.confinement == Confinement::Hard ==> forall|i: int|
                0 <= i < final(self)@.len() ==> near_sphere(
                    #[trigger] final(self)@[i].position,
                    cfg.target_radius as int,
                ),
    {
        let n = self.particles.len();
        let mut next: Vec<Particle> = Vec::new();
        let mut i: usize = 0;
        while i < n
            invariant
                n == self@.len(),
                self@ == self.particles@,
                valid_particles(self@),
                cfg.wf(),
                t <= MAX_TEMPERATURE,
                noise@.len() == n,
                forall|j: int| 0 <= j < n ==> valid_noise(#[trigger] noise@[j]),
                i <= n,
                next@.len() == i,
                forall|j: int|
                    0 <= j < i ==> #[trigger] next@[j] == stepped(self@, *cfg, t as int, noise@)[j],
                forall|j: int| 0 <= j < i ==> (#[trigger] next@[j]).wf(),
                cfg.confinement == Confinement::Hard ==> forall|j: int|
                    0 <= j < i ==> near_sphere(
                        #[trigger] next@[j].position,
                        cfg.target_radius as int,
                    ),
            decreases n - i,
        {
            assert(self@[i as int].wf());
            let pos = next_position_of(&self.particles, i, cfg, t, noise[i]);
            next.push(Particle { position: pos, weight: self.particles[i].weight });
            i = i + 1;
        }
        assert(next@ =~= stepped(self@, *cfg, t as int, noise@));
        self.particles = next;
    }

    /// One relaxation step at iteration `iteration` of `schedule`, with the
    /// kick drawn from `rng`.
    pub fn step(&mut self, cfg: &RelaxConfig, schedule: &Schedule, iteration: u64, rng: &mut StdRng)
        requires
            old(self).wf(),
            cfg.wf(),
            schedule.wf(),
        ensures
            final(self).wf(),
            exists|noise: Seq<Vec3>|
                noise.len() == old(self)@.len() && (forall|i: int|
                    0 <= i < noise.len() ==> valid_noise(#[trigger] noise[i])) && final(self)@
                    == stepped(
                    old(self)@,
                    *cfg,
                    schedule.temperature_at(iteration as int),
                    noise,
                ),
            cfg.confinement == Confinement::Hard ==> forall|i: int|
                0 <= i < final(self)@.len() ==> near_sphere(
                    #[trigger] final(self)@[i].position,
                    cfg.target_radius as int,
                ),
    {
        let t = schedule.temperature(iteration);
        let noise = draw_noise(rng, self.particles.len());
        self.relax_step(cfg, t, &noise);
    }

    /// `count` particles at random directions on the sphere of radius
    /// `target_radius`, with weights drawn from `weights`.
    pub fn new(count: usize, target_radius: u64, weights: WeightDistribution, rng: &mut StdRng) -> (r:
        Result<ParticleSet, SetupError>)
        ensures
            r is Ok <==> valid_setup(count, target_radius, weights),
            r is Ok ==> {
                let s = r->Ok_0;
                &&& s.wf()
                &&& s@.len() == count
                &&& forall|i: int|
                    0 <= i < count ==> near_sphere(#[trigger] s@[i].position, target_radius as int)
                        && weights.allows(s@[i].weight) && exists|u: Vec3|
                        valid_noise(u) && s@[i].position == start_of(u, target_radius as int)
            },
    {
        if count == 0 || count > MAX_PARTICLES || target_radius < MIN_RADIUS || target_radius
            > MAX_RADIUS {
            return Err(SetupError::InvalidConfig);
        }
        match weights {
            WeightDistribution::Constant => {},
            WeightDistribution::Uniform { low, high } => {
                if low == 0 || low > high || high > MAX_WEIGHT {
                    return Err(SetupError::InvalidConfig);
                }
            },
        }
        let mut particles: Vec<Particle> = Vec::new();
        let mut i: usize = 0;
        while i < count
            invariant
                valid_setup(count, target_radius, weights),
                i <= count,
                particles@.len() == i,
                forall|j: int|
                    0 <= j < i ==> (#[trigger] particles@[j]).wf() && near_sphere(
                        particles@[j].position,
                        target_radius as int,
                    ) && weights.allows(particles@[j].weight) && exists|u: Vec3|
                        valid_noise(u) && particles@[j].position == start_of(
                            u,
                            target_radius as int,
                        ),
            decreases count - i,
        {
            let u = draw_unit(rng);
            let position = start_position(u, target_radius);
            let weight = match weights {
                WeightDistribution::Constant => WEIGHT_UNIT,
                WeightDistribution::Uniform { low, high } => draw_between(rng, low, high),
            };
            particles.push(Particle { position, weight });
            assert(valid_noise(u) && particles@[i as int].position == start_of(u, target_radius as int));
            i = i + 1;
        }
        Ok(ParticleSet { particles })
    }
}

/// The draws `u`, centred on the middle of their range.
pub open spec fn centred(u: Vec3) -> Vec3 {
    Vec3 { x: (u.x - NOISE_HALF) as i64, y: (u.y - NOISE_HALF) as i64, z: (u.z - NOISE_HALF) as i64 }
}

/// The starting position given by the draws `u`: a point of the cube
/// projected onto the sphere of radius `r`.
pub open spec fn start_of(u: Vec3, r: int) -> Vec3 {
    projection(centred(u), r)
}

/// The starting position given by the draws `u` on the sphere of radius `r`.
pub fn start_position(u: Vec3, r: u64) -> (p: Vec3)
    requires
        valid_noise(u),
        MIN_RADIUS <= r <= MAX_RADIUS,
    ensures
        p == start_of(u, r as int),
        near_sphere(p, r as int),
        p.in_box(),
{
    let dir = Vec3 {
        x: u.x - NOISE_HALF as i64,
        y: u.y - NOISE_HALF as i64,
        z: u.z - NOISE_HALF as i64,
    };
    project(dir, r)
}

/// Three independent draws from `0 ..= NOISE_RANGE`.
fn draw_unit(rng: &mut StdRng) -> (u: Vec3)
    ensures
        valid_noise(u),
{
    let x = draw_between(rng, 0, NOISE_RANGE);
    let y = draw_between(rng, 0, NOISE_RANGE);
    let z = draw_between(rng, 0, NOISE_RANGE);
    Vec3 { x: x as i64, y: y as i64, z: z as i64 }
}

/// One set of draws for each of `n` particles.
fn draw_noise(rng: &mut StdRng, n: usize) -> (r: Vec<Vec3>)
    ensures
        r@.len() == n,
        forall|i: int| 0 <= i < n ==> valid_noise(#[trigger] r@[i]),
{
    let mut r: Vec<Vec3> = Vec::new();
    let mut i: usize = 0;
    while i < n
        invariant
            i <= n,
            r@.len() == i,
            forall|j: int| 0 <= j < i ==> valid_noise(#[trigger] r@[j]),
        decreases n - i,
    {
        r.push(draw_unit(rng));
        i = i + 1;
    }
    r
}

} // verus!
