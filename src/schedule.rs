//! The annealing schedule: the size of the random kick at each iteration.
use vstd::prelude::*;

verus! {

/// Largest starting temperature, in units of length.
pub const MAX_TEMPERATURE: u64 = 4_294_967_296;

/// The fixed-point one of a decay factor: factors are fractions of `2^62`.
pub const FACTOR_ONE: u128 = 4_611_686_018_427_387_904;

/// Temperatures are carried in fractions of `2^-32` units while they decay.
pub const TEMPERATURE_SCALE: u128 = 4_294_967_296;

/// One factor for each bit of an iteration count.
pub const FACTOR_COUNT: usize = 64;

/// The temperature `base * exp(-decay * i)`, cut to zero once it falls below
/// `floor` and from iteration `cutoff` on.
///
/// `factors[b]` is `exp(-decay * 2^b)` as a fraction of `FACTOR_ONE`, rounded
/// to nearest, so that the product of the factors of the bits of `i` is
/// `exp(-decay * i)`. All arithmetic is in integers, so every run replays
/// exactly.
#[derive(Debug)]
pub struct Schedule {
    pub base: u64,
    pub factors: Vec<u64>,
    pub floor: u64,
    pub cutoff: u64,
}

/// `acc` multiplied, for each set bit `b0 + j` of `i` (bit `j` of `i`), by
/// `f[b0 + j] / FACTOR_ONE`, rounding down after each product.
pub open spec fn decayed(acc: int, f: Seq<u64>, i: nat, b: nat) -> int
    decreases i,
{
    if i == 0 {
        acc
    } else {
        let next = if i % 2 == 1 {
            (acc * f[b as int]) / FACTOR_ONE as int
        } else {
            acc
        };
        decayed(next, f, i / 2, b + 1)
    }
}

pub open spec fn two_pow(k: nat) -> int
    decreases k,
{
    if k == 0 {
        1
    } else {
        2 * two_pow((k - 1) as nat)
    }
}

/// The factors of `slow_preset`: `exp(-0.00003 * 2^b)` over `2^62`.
pub open spec fn slow_factors() -> Seq<u64> {
    seq![
        4611547669922073038, 4611409325567151076, 4611132649307987824,
        4610579346588897975, 4609472940319779683, 4607260924234757303,
        4602840076094120574, 4594011101675722299, 4576403926457398299,
        4541391763101109784, 4472168977582648499, 4336872736811525199,
        4078435752161827815, 3606845331197110161, 2820949472968380999,
        1725563253275041513, 645657256186862756, 90394985868726677,
        1771858152865693, 680766492197, 100493,
        0, 0, 0,
        0, 0, 0,
        0, 0, 0,
        0, 0, 0,
        0, 0, 0,
        0, 0, 0,
        0, 0, 0,
        0, 0, 0,
        0, 0, 0,
        0, 0, 0,
        0, 0, 0,
        0, 0, 0,
        0, 0, 0,
        0, 0, 0,
        0
    ]
}

impl Schedule {
    pub open spec fn wf(&self) -> bool {
        &&& self.base <= MAX_TEMPERATURE
        &&& self.factors@.len() == FACTOR_COUNT
        &&& forall|b: int| 0 <= b < FACTOR_COUNT ==> #[trigger] self.factors@[b] <= FACTOR_ONE
    }

    /// The temperature at iteration `i`, scaled by `TEMPERATURE_SCALE`.
    pub open spec fn scaled_at(&self, i: int) -> int {
        decayed(self.base * TEMPERATURE_SCALE, self.factors@, i as nat, 0)
    }

    /// The temperature at iteration `i`, rounded to the nearest unit.
    pub open spec fn temperature_at(&self, i: int) -> int {
        let a = self.scaled_at(i);
        if i >= self.cutoff || a < self.floor * TEMPERATURE_SCALE {
            0
        } else {
            (a + TEMPERATURE_SCALE / 2) / TEMPERATURE_SCALE as int
        }
    }

    /// Whether the schedule is within the allowed ranges.
    pub fn is_valid(&self) -> (r: bool)
        ensures
            r == self.wf(),
    {
        if self.base > MAX_TEMPERATURE || self.factors.len() != FACTOR_COUNT {
            return false;
        }
        let mut b: usize = 0;
        while b < FACTOR_COUNT
            invariant
                self.factors@.len() == FACTOR_COUNT,
                b <= FACTOR_COUNT,
                forall|j: int| 0 <= j < b ==> #[trigger] self.factors@[j] <= FACTOR_ONE,
            decreases FACTOR_COUNT - b,
        {
            if self.factors[b] as u128 > FACTOR_ONE {
                return false;
            }
            b = b + 1;
        }
        true
    }

    /// A kick of 0.5 decaying at a rate of 0.00003 per iteration, cut to zero
    /// below 0.0003, which it reaches at iteration 247287.
    pub fn slow_preset() -> (r: Schedule)
        ensures
            r.wf(),
            r.base == 5_000_000,
            r.floor == 3000,
            r.cutoff == 247_287,
            r.factors@ == slow_factors(),
    {
        let mut factors: Vec<u64> = Vec::new();
        factors.push(4611547669922073038);
        factors.push(4611409325567151076);
        factors.push(4611132649307987824);
        factors.push(4610579346588897975);
        factors.push(4609472940319779683);
        factors.push(4607260924234757303);
        factors.push(4602840076094120574);
        factors.push(4594011101675722299);
        factors.push(4576403926457398299);
        factors.push(4541391763101109784);
        factors.push(4472168977582648499);
        factors.push(4336872736811525199);
        factors.push(4078435752161827815);
        factors.push(3606845331197110161);
        factors.push(2820949472968380999);
        factors.push(1725563253275041513);
        factors.push(645657256186862756);
        factors.push(90394985868726677);
        factors.push(1771858152865693);
        factors.push(680766492197);
        factors.push(100493);
        factors.push(0);
        factors.push(0);
        factors.push(0);
        factors.push(0);
        factors.push(0);
        factors.push(0);
        factors.push(0);
        factors.push(0);
        factors.push(0);
        factors.push(0);
        factors.push(0);
        factors.push(0);
        factors.push(0);
        factors.push(0);
        factors.push(0);
        factors.push(0);
        factors.push(0);
        factors.push(0);
        factors.push(0);
        factors.push(0);
        factors.push(0);
        factors.push(0);
        factors.push(0);
        factors.push(0);
        factors.push(0);
        factors.push(0);
        factors.push(0);
        factors.push(0);
        factors.push(0);
        factors.push(0);
        factors.push(0);
        factors.push(0);
        factors.push(0);
        factors.push(0);
        factors.push(0);
        factors.push(0);
        factors.push(0);
        factors.push(0);
        factors.push(0);
        factors.push(0);
        factors.push(0);
        factors.push(0);
        factors.push(0);
        assert(factors@ =~= slow_factors());
        Schedule { base: 5_000_000, factors, floor: 3000, cutoff: 247_287 }
    }

    /// The temperature at iteration `i`.
    pub fn temperature(&self, i: u64) -> (t: u64)
        requires
            self.wf(),
        ensures
            t == self.temperature_at(i as int),
            t <= MAX_TEMPERATURE,
    {
        let start: u128 = self.base as u128 * TEMPERATURE_SCALE;
        let mut acc: u128 = start;
        let mut k: u64 = i;
        let mut b: usize = 0;
        proof {
            lemma_two_pow_64();
        }
        while k > 0
            invariant
                self.wf(),
                start == self.base * TEMPERATURE_SCALE,
                b <= FACTOR_COUNT,
                k < two_pow((FACTOR_COUNT - b) as nat),
                acc <= start,
                decayed(acc as int, self.factors@, k as nat, b as nat) == self.scaled_at(i as int),
            decreases k,
        {
            assert(b < FACTOR_COUNT);
            assert(two_pow((FACTOR_COUNT - b) as nat) == 2 * two_pow((FACTOR_COUNT - b - 1) as nat));
            if k % 2 == 1 {
                let f: u128 = self.factors[b] as u128;
                assert(self.factors@[b as int] <= FACTOR_ONE);
                assert(acc * f <= start * FACTOR_ONE && start * FACTOR_ONE
                    < 0x1_0000_0000_0000_0000_0000_0000_0000_0000) by (nonlinear_arith)
                    requires
                        acc <= start,
                        f <= FACTOR_ONE,
                        start <= MAX_TEMPERATURE * TEMPERATURE_SCALE,
                ;
                let next: u128 = acc * f / FACTOR_ONE;
                proof {
                    assert(acc * f <= acc * FACTOR_ONE) by (nonlinear_arith)
                        requires
                            f <= FACTOR_ONE,
                    ;
                    vstd::arithmetic::div_mod::lemma_div_is_ordered(
                        acc * f,
                        acc * FACTOR_ONE,
                        FACTOR_ONE as int,
                    );
                    vstd::arithmetic::div_mod::lemma_div_by_multiple(acc as int, FACTOR_ONE as int);
                }
                acc = next;
            }
            k = k / 2;
            b = b + 1;
        }
        if i >= self.cutoff || acc < self.floor as u128 * TEMPERATURE_SCALE {
            0
        } else {
            ((acc + TEMPERATURE_SCALE / 2) / TEMPERATURE_SCALE) as u64
        }
    }
}

proof fn lemma_two_pow_64()
    ensures
        two_pow(64) == 0x1_0000_0000_0000_0000,
{
    reveal_with_fuel(two_pow, 65);
}

/// The annealing floor: from the configured cutoff on, the temperature is
/// exactly zero.
pub proof fn lemma_annealing_floor(s: Schedule, i: int)
    requires
        i >= s.cutoff,
    ensures
        s.temperature_at(i) == 0,
{
}

/// Whether a scene is due after `iteration` steps when one is written every
/// `cadence` steps; a cadence of zero writes none.
pub fn export_due(iteration: u64, cadence: u64) -> (r: bool)
    ensures
        r == (cadence > 0 && iteration > 0 && iteration % cadence == 0),
{
    cadence > 0 && iteration > 0 && iteration % cadence == 0
}

} // verus!
