use rand::rngs::StdRng;
use rand::SeedableRng;
use thomson::force::{
    kick_part, push_between, Confinement, Particle, RelaxConfig, NOISE_HALF, NOISE_RANGE,
    WEIGHT_UNIT,
};
use thomson::particles::{ParticleSet, SetupError, WeightDistribution};
use thomson::schedule::{export_due, Schedule, FACTOR_COUNT};
use thomson::vector::{isqrt, project, Vec3, MAX_COORD, SCALE, SHELL_TOLERANCE};

fn v(x: i64, y: i64, z: i64) -> Vec3 {
    Vec3 { x, y, z }
}

fn norm_sq(p: Vec3) -> i128 {
    let (x, y, z) = (p.x as i128, p.y as i128, p.z as i128);
    x * x + y * y + z * z
}

fn near(p: Vec3, r: u64) -> bool {
    let r = r as i128;
    let lo = r - SHELL_TOLERANCE as i128;
    let n = norm_sq(p);
    lo * lo <= n && n < (r + 1) * (r + 1)
}

fn hard(radius: u64, repulsion: u64) -> RelaxConfig {
    RelaxConfig { target_radius: radius, repulsion, confinement: Confinement::Hard }
}

fn quiet(n: usize) -> Vec<Vec3> {
    vec![v(NOISE_HALF as i64, NOISE_HALF as i64, NOISE_HALF as i64); n]
}

fn min_distance(ps: &ParticleSet) -> f64 {
    let pos = ps.positions();
    let mut best = f64::MAX;
    for i in 0..pos.len() {
        for j in (i + 1)..pos.len() {
            let d = norm_sq(v(pos[i].x - pos[j].x, pos[i].y - pos[j].y, pos[i].z - pos[j].z));
            best = best.min((d as f64).sqrt());
        }
    }
    best
}

#[test]
fn integer_square_root() {
    assert_eq!(isqrt(0), 0);
    assert_eq!(isqrt(99), 9);
    assert_eq!(isqrt(100), 10);
    assert_eq!(isqrt(u128::MAX), u64::MAX as u128);
}

#[test]
fn projection_rescales_exactly_on_a_pythagorean_triple() {
    assert_eq!(project(v(3000, 4000, 0), 10_000), v(6000, 8000, 0));
    assert_eq!(project(v(-3, 0, -4), 10_000), v(-6000, 0, -8000));
}

#[test]
fn projection_of_zero_goes_to_first_axis() {
    assert_eq!(project(v(0, 0, 0), 20_000), v(20_000, 0, 0));
}

#[test]
fn projection_lands_within_tolerance() {
    for p in [v(1, 1, 0), v(1, 1, 1), v(-MAX_COORD, MAX_COORD, 7), v(12345, -678, 9)] {
        let q = project(p, 16);
        assert!(near(q, 16), "{:?} -> {:?}", p, q);
        let q = project(p, 20_000);
        assert!(near(q, 20_000), "{:?} -> {:?}", p, q);
    }
}

/// `exp(-decay * 2^b)` as fractions of `2^62`, one for each bit.
fn factors_for(decay: f64) -> Vec<u64> {
    (0..FACTOR_COUNT as i32)
        .map(|b| ((-decay * 2f64.powi(b)).exp() * 2f64.powi(62)).round() as u64)
        .collect()
}

fn sched(decay: f64, cutoff: u64) -> Schedule {
    Schedule { base: 5_000_000, factors: factors_for(decay), floor: 3000, cutoff }
}

#[test]
fn schedule_follows_exponential() {
    let s = Schedule::slow_preset();
    assert_eq!(s.temperature(0), 5_000_000);
    assert_eq!(s.temperature(5000), 4_303_540);
    assert_eq!(s.temperature(100_000), 248_935);
    assert_eq!(s.temperature(247_286), 3000);
    for i in (0..247_287u64).step_by(97) {
        let exact = 5_000_000.0 * (-0.00003 * i as f64).exp();
        assert!((s.temperature(i) as f64 - exact).abs() <= 0.5 + 1e-9, "{}", i);
    }
}

#[test]
fn schedule_is_zero_below_floor_and_past_cutoff() {
    let s = Schedule::slow_preset();
    for i in 247_287..248_500 {
        assert_eq!(s.temperature(i), 0);
    }
    assert_eq!(s.temperature(247_300), 0);
    assert_eq!(s.temperature(u64::MAX), 0);
    let fast = sched(0.001, 10);
    assert_eq!(fast.temperature(9), 4_955_202);
    assert_eq!(fast.temperature(10), 0);
}

#[test]
fn schedule_with_no_floor_still_reaches_zero() {
    let s = Schedule { base: 5_000_000, factors: factors_for(0.00003), floor: 0, cutoff: u64::MAX };
    assert_eq!(s.temperature(300_000), 617);
    assert_eq!(s.temperature(u64::MAX - 1), 0);
}

#[test]
fn kick_vanishes_at_zero_temperature() {
    for u in [0, 1, NOISE_HALF as i64, NOISE_RANGE as i64] {
        assert_eq!(kick_part(0, u), 0);
    }
    assert_eq!(kick_part(65_536, NOISE_RANGE as i64), 32_768);
    assert_eq!(kick_part(65_536, 0), -32_768);
    assert_eq!(kick_part(1000, 49_152), 250);
}

#[test]
fn coincident_particles_give_no_push() {
    let x = v(100, -200, 300);
    assert_eq!(push_between(x, x, 1 << 64), (0, 0, 0));
}

#[test]
fn push_is_inverse_square() {
    // strength 1000 * 1000 thousandths at distance 10 along the first axis.
    assert_eq!(push_between(v(10, 0, 0), v(0, 0, 0), 1_000_000), (100, 0, 0));
    assert_eq!(push_between(v(0, 0, 0), v(10, 0, 0), 1_000_000), (-100, 0, 0));
}

#[test]
fn coincident_particles_step_safely_in_both_modes() {
    let p = Particle { position: v(20_000_000, 0, 0), weight: WEIGHT_UNIT };
    for cfg in [hard(20_000_000, 50_000_000_000_000), RelaxConfig::volume_preset()] {
        let mut set = ParticleSet::from_particles(vec![p, p]).unwrap();
        set.relax_step(&cfg, 0, &quiet(2));
        for q in set.positions() {
            assert_eq!(q, v(20_000_000, 0, 0));
        }
    }
}

#[test]
fn antipodal_pair_is_a_fixed_point() {
    let a = Particle { position: v(20_000, 0, 0), weight: WEIGHT_UNIT };
    let b = Particle { position: v(-20_000, 0, 0), weight: WEIGHT_UNIT };
    let mut set = ParticleSet::from_particles(vec![a, b]).unwrap();
    let noise = vec![v(0, 0, 0), v(NOISE_RANGE as i64, 0, 17)];
    for _ in 0..10 {
        set.relax_step(&hard(20_000, 50_000_000), 0, &noise);
    }
    assert_eq!(set.positions(), vec![v(20_000, 0, 0), v(-20_000, 0, 0)]);
}

#[test]
fn soft_mode_pulls_toward_radius() {
    let p = Particle { position: v(30_000, 0, 0), weight: WEIGHT_UNIT };
    let mut set = ParticleSet::from_particles(vec![p]).unwrap();
    let cfg = RelaxConfig {
        target_radius: 20_000,
        repulsion: 5_000_000,
        confinement: Confinement::Soft { restore: 500 },
    };
    set.relax_step(&cfg, 0, &quiet(1));
    assert_eq!(set.positions(), vec![v(25_000, 0, 0)]);
}

#[test]
fn single_particle_stays_on_sphere() {
    let p = Particle { position: v(0, 0, 20_000), weight: WEIGHT_UNIT };
    let mut set = ParticleSet::from_particles(vec![p]).unwrap();
    let mut rng = StdRng::seed_from_u64(3);
    let s = sched(0.01, 400);
    for i in 0..500 {
        set.step(&hard(20_000, 50_000_000), &s, i, &mut rng);
        assert!(near(set.positions()[0], 20_000));
    }
}

#[test]
fn hard_mode_keeps_every_particle_on_sphere() {
    let mut rng = StdRng::seed_from_u64(11);
    let mut set =
        ParticleSet::new(40, 20_000_000, WeightDistribution::Uniform { low: 1000, high: 4000 }, &mut rng)
            .unwrap();
    let cfg = RelaxConfig::surface_preset();
    let s = sched(0.02, 150);
    for i in 0..200 {
        set.step(&cfg, &s, i, &mut rng);
        for q in set.positions() {
            assert!(near(q, 20_000_000));
            let radius = (norm_sq(q) as f64).sqrt() / SCALE as f64;
            assert!((radius - 2.0).abs() < 1e-6, "{}", radius);
        }
    }
}

#[test]
fn soft_mode_stays_in_box() {
    let mut rng = StdRng::seed_from_u64(5);
    let mut set = ParticleSet::new(30, 20_000_000, WeightDistribution::Constant, &mut rng).unwrap();
    let cfg = RelaxConfig::volume_preset();
    let s = Schedule::slow_preset();
    for i in 0..200 {
        set.step(&cfg, &s, i, &mut rng);
    }
    for q in set.positions() {
        assert!(q.x.abs() <= MAX_COORD && q.y.abs() <= MAX_COORD && q.z.abs() <= MAX_COORD);
    }
}

#[test]
fn new_set_is_on_sphere_with_drawn_weights() {
    let mut rng = StdRng::seed_from_u64(1);
    let set =
        ParticleSet::new(200, 20_000, WeightDistribution::Uniform { low: 1000, high: 4000 }, &mut rng)
            .unwrap();
    assert_eq!(set.len(), 200);
    let mut distinct = std::collections::BTreeSet::new();
    for i in 0..set.len() {
        let p = set.particle(i);
        assert!(near(p.position, 20_000));
        assert!(1000 <= p.weight && p.weight <= 4000);
        distinct.insert(p.weight);
    }
    assert!(distinct.len() > 10);
    let set = ParticleSet::new(5, 20_000, WeightDistribution::Constant, &mut rng).unwrap();
    for i in 0..5 {
        assert_eq!(set.particle(i).weight, WEIGHT_UNIT);
    }
}

#[test]
fn new_set_rejects_invalid_config() {
    let mut rng = StdRng::seed_from_u64(1);
    let c = WeightDistribution::Constant;
    assert_eq!(ParticleSet::new(0, 20_000, c, &mut rng).unwrap_err(), SetupError::InvalidConfig);
    assert_eq!(ParticleSet::new(3, 0, c, &mut rng).unwrap_err(), SetupError::InvalidConfig);
    let zero = WeightDistribution::Uniform { low: 0, high: 10 };
    assert_eq!(ParticleSet::new(3, 20_000, zero, &mut rng).unwrap_err(), SetupError::InvalidConfig);
    let empty = WeightDistribution::Uniform { low: 20, high: 10 };
    assert_eq!(ParticleSet::new(3, 20_000, empty, &mut rng).unwrap_err(), SetupError::InvalidConfig);
}

#[test]
fn from_particles_rejects_invalid_sets() {
    let ok = Particle { position: v(1, 2, 3), weight: 1 };
    assert!(ParticleSet::from_particles(vec![ok]).is_ok());
    assert_eq!(ParticleSet::from_particles(vec![]).unwrap_err(), SetupError::InvalidConfig);
    let light = Particle { position: v(1, 2, 3), weight: 0 };
    assert_eq!(ParticleSet::from_particles(vec![ok, light]).unwrap_err(), SetupError::InvalidConfig);
    let far = Particle { position: v(MAX_COORD + 1, 0, 0), weight: 1 };
    assert_eq!(ParticleSet::from_particles(vec![far]).unwrap_err(), SetupError::InvalidConfig);
}

#[test]
fn config_checks() {
    assert!(RelaxConfig::surface_preset().is_valid());
    assert!(RelaxConfig::volume_preset().is_valid());
    assert!(!hard(0, 1).is_valid());
    assert!(Schedule::slow_preset().is_valid());
    assert!(!Schedule { base: 1, factors: vec![0; 3], floor: 0, cutoff: 0 }.is_valid());
    assert!(!Schedule { base: 1, factors: vec![u64::MAX; FACTOR_COUNT], floor: 0, cutoff: 0 }
        .is_valid());
    assert!(sched(0.5, 7).is_valid());
}

#[test]
fn export_cadence() {
    assert!(!export_due(0, 100));
    assert!(export_due(100, 100));
    assert!(!export_due(150, 100));
    assert!(!export_due(100, 0));
}

#[test]
fn twelve_particles_settle() {
    let mut rng = StdRng::seed_from_u64(2024);
    let mut set = ParticleSet::new(12, 20_000_000, WeightDistribution::Constant, &mut rng).unwrap();
    let cfg = hard(20_000_000, 1_000_000_000_000);
    // 5000000 * exp(-0.0015 * 4970) is below the floor of 3000.
    let s = sched(0.0015, 5000);
    assert_eq!(s.temperature(4970), 0);
    assert!(s.temperature(4000) > 10);
    let mut before = 0.0;
    for i in 0..10_000u64 {
        if i == 9_900 {
            before = min_distance(&set);
        }
        set.step(&cfg, &s, i, &mut rng);
    }
    let after = min_distance(&set);
    assert!(((after - before) / before).abs() < 0.01, "{} vs {}", before, after);
    assert!(after > 10_000_000.0, "{}", after);
}

#[test]
fn soft_antipodal_pair_moves_along_its_line() {
    let p = v(0, 1_516_800, 19_942_400);
    let a = Particle { position: p, weight: WEIGHT_UNIT };
    let b = Particle { position: v(-p.x, -p.y, -p.z), weight: WEIGHT_UNIT };
    let mut set = ParticleSet::from_particles(vec![a, b]).unwrap();
    set.relax_step(&RelaxConfig::volume_preset(), 0, &quiet(2));
    let q = set.positions();
    assert_eq!(q[1], v(-q[0].x, -q[0].y, -q[0].z));
    let s = SCALE as f64;
    let m = [(q[0].x - p.x) as f64 / s, (q[0].y - p.y) as f64 / s, (q[0].z - p.z) as f64 / s];
    let x = [p.x as f64 / s, p.y as f64 / s, p.z as f64 / s];
    let cross = [
        m[1] * x[2] - m[2] * x[1],
        m[2] * x[0] - m[0] * x[2],
        m[0] * x[1] - m[1] * x[0],
    ];
    let cross_norm = (cross[0] * cross[0] + cross[1] * cross[1] + cross[2] * cross[2]).sqrt();
    let p_sq = x[0] * x[0] + x[1] * x[1] + x[2] * x[2];
    assert!(cross_norm <= 1e-6 * p_sq, "{}", cross_norm);
    assert!(m[2] > 0.01);
}

#[test]
fn hard_mode_projects_a_far_push_along_its_direction() {
    let a = Particle { position: v(20_000_000, 0, 0), weight: WEIGHT_UNIT };
    let b = Particle { position: v(20_000_000, 1, 0), weight: WEIGHT_UNIT };
    let mut set = ParticleSet::from_particles(vec![a, b]).unwrap();
    set.relax_step(&hard(20_000_000, 50_000_000_000_000), 0, &quiet(2));
    let q = set.positions();
    // x + d = (2e7, -5e13, 0) and R (x + d) / |x + d| = (8, -2e7, 0); halving
    // x + d into the box and rounding move it by at most a unit or two.
    assert!((q[0].x - 8).abs() <= 2, "{:?}", q[0]);
    assert!((q[0].y + 20_000_000).abs() <= 2, "{:?}", q[0]);
    assert_eq!(q[0].z, 0);
    assert!(near(q[0], 20_000_000));
}

#[test]
fn start_position_projects_centred_draws() {
    let u = v(NOISE_HALF as i64 + 3, NOISE_HALF as i64 + 4, NOISE_HALF as i64);
    assert_eq!(thomson::particles::start_position(u, 10_000), v(6000, 8000, 0));
    let c = v(NOISE_HALF as i64, NOISE_HALF as i64, NOISE_HALF as i64);
    assert_eq!(thomson::particles::start_position(c, 10_000), v(10_000, 0, 0));
}
